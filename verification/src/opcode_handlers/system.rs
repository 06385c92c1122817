//! System opcodes: CREATE, CALL, CALLCODE, RETURN, DELEGATECALL,
//! CREATE2, STATICCALL, REVERT, INVALID, SELFDESTRUCT, and the shared
//! subcall/create/return protocol.

use vstd::prelude::*;
use crate::bytebuf::{bytes_clone, bytes_from_vec, bytes_len, bytes_new, bytes_view};
use crate::call_frame::CallFrame;
use crate::db::{cache_model, read_through};
use crate::errors::{ExecutionReport, InternalError, OpcodeResult, OutOfGasError, TxResult, VMError};
use crate::fork::Fork;
use crate::gas_cost;
use crate::utils::{access_account, eip7702_get_code};
use crate::vm::{ctx, frames_gas, same_world, stacks_extended_by_child, stacks_unchanged, RetData, StateBackup, VM};
use crate::word::{address_to_word, word_to_address, Address, U256};

verus! {

/// What a finished call pushes on the parent's stack: 1 on success.
pub fn success_for_call() -> (r: U256)
    ensures
        r.as_nat() == 1,
{
    U256::from_u64(1)
}

/// What a reverted call, or a failed deployment, pushes: 0.
pub fn revert_for_call() -> (r: U256)
    ensures
        r.as_nat() == 0,
{
    U256::from_u64(0)
}

impl VM {
    // RETURN operation
    pub fn op_return(&mut self) -> (r: Result<OpcodeResult, VMError>)
        requires
            old(self).wf(),
            old(self).has_frame(),
        ensures
            final(self).wf(),
            same_world(*old(self), *final(self)),
            final(self).call_frames@.len() == old(self).call_frames@.len(),
            final(self).call_frames@.drop_last() == old(self).call_frames@.drop_last(),
            ctx(final(self).cur()) == ctx(old(self).cur()),
            final(self).cur().gas_used >= old(self).cur().gas_used,
            ({
                let f = old(self).cur();
                let g = final(self).cur();
                let off = f.stack@.last().as_nat() as int;
                let size = f.stack@[f.stack@.len() - 2].as_nat();
                &&& (f.stack@.len() < 2 ==> r is Err)
                &&& (f.stack@.len() >= 2 && size <= usize::MAX && (size == 0 || (off + size + 31
                    <= usize::MAX && crate::gas_cost::mem_cost(crate::memory::round32(off + size))
                    <= u64::MAX && f.gas_used + crate::gas_cost::mem_expansion(
                    crate::memory::round32(off + size),
                    f.memory@.len() as int,
                ) <= f.gas_limit)) ==> r == Ok::<OpcodeResult, VMError>(OpcodeResult::Halt))
                &&& (r matches Ok(res) ==> res == OpcodeResult::Halt)
                &&& (r is Ok ==> {
                    &&& f.stack@.len() >= 2
                    &&& g.stack@ == f.stack@.drop_last().drop_last()
                    &&& (size == 0 ==> g.output_view() == f.output_view() && g.memory@ == f.memory@
                        && g.gas_used == f.gas_used)
                    &&& (size > 0 ==> {
                        &&& g.memory@ == crate::memory::expand_view(
                            f.memory@,
                            crate::memory::round32(off + size),
                        )
                        &&& g.output_view() == g.memory@.subrange(off, off + size)
                        &&& g.gas_used == f.gas_used + crate::gas_cost::mem_expansion(
                            crate::memory::round32(off + size),
                            f.memory@.len() as int,
                        )
                    })
                })
            }),
    {
        let mut frame = self.take_frame();
        proof {
            assert(old(self).call_frames@[old(self).call_frames@.len() - 1].wf());
            crate::vm::lemma_frames_wf_drop(old(self).call_frames@);
        }
        let result = Self::return_work(&mut frame);
        self.put_frame(frame);
        proof {
            assert(self.call_frames@.drop_last() =~= old(self).call_frames@.drop_last());
            assert(self.call_frames@.last().wf());
            crate::vm::lemma_frames_wf_push(
                old(self).call_frames@.drop_last(),
                self.call_frames@.last(),
            );
            assert(self.call_frames@ =~= old(self).call_frames@.drop_last().push(
                self.call_frames@.last(),
            ));
        }
        result
    }

    fn return_work(frame: &mut CallFrame) -> (r: Result<OpcodeResult, VMError>)
        requires
            old(frame).wf(),
        ensures
            final(frame).wf(),
            ctx(*final(frame)) == ctx(*old(frame)),
            final(frame).gas_used >= old(frame).gas_used,
            r != Err::<OpcodeResult, VMError>(VMError::RevertOpcode),
            ({
                let f = *old(frame);
                let g = *final(frame);
                let off = f.stack@.last().as_nat() as int;
                let size = f.stack@[f.stack@.len() - 2].as_nat();
                &&& (f.stack@.len() < 2 ==> r is Err)
                &&& (f.stack@.len() >= 2 && size <= usize::MAX && (size == 0 || (off + size + 31
                    <= usize::MAX && crate::gas_cost::mem_cost(crate::memory::round32(off + size))
                    <= u64::MAX && f.gas_used + crate::gas_cost::mem_expansion(
                    crate::memory::round32(off + size),
                    f.memory@.len() as int,
                ) <= f.gas_limit)) ==> r == Ok::<OpcodeResult, VMError>(OpcodeResult::Halt))
                &&& (r matches Ok(res) ==> res == OpcodeResult::Halt)
                &&& (r is Ok ==> {
                    &&& f.stack@.len() >= 2
                    &&& g.stack@ == f.stack@.drop_last().drop_last()
                    &&& (size == 0 ==> g.output_view() == f.output_view() && g.memory@ == f.memory@
                        && g.gas_used == f.gas_used)
                    &&& (size > 0 ==> {
                        &&& g.memory@ == crate::memory::expand_view(
                            f.memory@,
                            crate::memory::round32(off + size),
                        )
                        &&& g.output_view() == g.memory@.subrange(off, off + size)
                        &&& g.gas_used == f.gas_used + crate::gas_cost::mem_expansion(
                            crate::memory::round32(off + size),
                            f.memory@.len() as int,
                        )
                    })
                })
            }),
    {
        let offset = frame.stack.pop()?;
        let size = match frame.stack.pop()?.to_usize() {
            Some(s) => s,
            None => {
                return Err(VMError::VeryLargeNumber);
            },
        };
        if size == 0 {
            return Ok(OpcodeResult::Halt);
        }
        let new_memory_size = crate::memory::calculate_memory_size(&offset, size)?;
        let current_size = frame.memory.len();
        let cost = gas_cost::exit_opcode(new_memory_size, current_size)?;
        frame.increase_consumed_gas(cost)?;
        let data = frame.memory.load_range(&offset, size)?;
        frame.output = bytes_from_vec(data);
        Ok(OpcodeResult::Halt)
    }

    // REVERT operation
    pub fn op_revert(&mut self) -> (r: Result<OpcodeResult, VMError>)
        requires
            old(self).wf(),
            old(self).has_frame(),
        ensures
            final(self).wf(),
            same_world(*old(self), *final(self)),
            final(self).call_frames@.len() == old(self).call_frames@.len(),
            final(self).call_frames@.drop_last() == old(self).call_frames@.drop_last(),
            ctx(final(self).cur()) == ctx(old(self).cur()),
            final(self).cur().gas_used >= old(self).cur().gas_used,
            r is Ok ==> false,
            crate::fork::fork_num(old(self).env.config.fork) < crate::fork::fork_num(
                Fork::Byzantium,
            ) ==> r == Err::<OpcodeResult, VMError>(VMError::InvalidOpcode),
            ({
                let f = old(self).cur();
                let g = final(self).cur();
                let off = f.stack@.last().as_nat() as int;
                let size = f.stack@[f.stack@.len() - 2].as_nat();
                &&& (crate::fork::fork_num(old(self).env.config.fork) >= crate::fork::fork_num(
                    Fork::Byzantium,
                ) && f.stack@.len() >= 2 && size <= usize::MAX && (size == 0 || (off + size + 31
                    <= usize::MAX && crate::gas_cost::mem_cost(crate::memory::round32(off + size))
                    <= u64::MAX && f.gas_used + crate::gas_cost::mem_expansion(
                    crate::memory::round32(off + size),
                    f.memory@.len() as int,
                ) <= f.gas_limit)) ==> r == Err::<OpcodeResult, VMError>(VMError::RevertOpcode))
                &&& (r == Err::<OpcodeResult, VMError>(VMError::RevertOpcode) ==> {
                    &&& f.stack@.len() >= 2
                    &&& g.stack@ == f.stack@.drop_last().drop_last()
                    &&& (size == 0 ==> g.output_view() == f.output_view() && g.memory@ == f.memory@)
                    &&& (size > 0 ==> {
                        &&& g.memory@ == crate::memory::expand_view(
                            f.memory@,
                            crate::memory::round32(off + size),
                        )
                        &&& g.output_view() == g.memory@.subrange(off, off + size)
                    })
                })
            }),
    {
        if self.env.config.fork.before(Fork::Byzantium) {
            return Err(VMError::InvalidOpcode);
        }
        let mut frame = self.take_frame();
        proof {
            assert(old(self).call_frames@[old(self).call_frames@.len() - 1].wf());
            crate::vm::lemma_frames_wf_drop(old(self).call_frames@);
        }
        let result = Self::return_work(&mut frame);
        self.put_frame(frame);
        proof {
            assert(self.call_frames@.drop_last() =~= old(self).call_frames@.drop_last());
            assert(self.call_frames@.last().wf());
            crate::vm::lemma_frames_wf_push(
                old(self).call_frames@.drop_last(),
                self.call_frames@.last(),
            );
            assert(self.call_frames@ =~= old(self).call_frames@.drop_last().push(
                self.call_frames@.last(),
            ));
        }
        match result {
            Ok(_) => Err(VMError::RevertOpcode),
            Err(e) => Err(e),
        }
    }

    /// Common behavior of the CALL family once gas is charged: load
    /// the arguments, run the three bail-out checks (insufficient
    /// balance, depth over 1024, delegation to empty code), transfer
    /// the value, and push the child frame together with its
    /// `RetData` and `StateBackup`.
    pub fn generic_call(
        &mut self,
        gas_limit: u64,
        value: U256,
        msg_sender: Address,
        to: Address,
        code_address: Address,
        should_transfer_value: bool,
        is_static: bool,
        args_offset: U256,
        args_size: usize,
        ret_offset: U256,
        ret_size: usize,
        bytecode: bytes::Bytes,
        is_delegation: bool,
    ) -> (r: Result<OpcodeResult, VMError>)
        requires
            old(self).wf(),
            old(self).has_frame(),
        ensures
            final(self).wf(),
            final(self).has_frame(),
            final(self).env == old(self).env,
            final(self).tx_kind == old(self).tx_kind,
            final(self).access_list == old(self).access_list,
            final(self).cache_backup == old(self).cache_backup,
            final(self).db.store == old(self).db.store,
            final(self).call_frames@.len() >= old(self).call_frames@.len(),
            r is Err ==> final(self).call_frames@.len() == old(self).call_frames@.len()
                && frames_gas(final(self).call_frames@) <= frames_gas(old(self).call_frames@)
                    + gas_limit
                && stacks_unchanged(*old(self), *final(self)),
            r matches Ok(res) ==> (res matches OpcodeResult::Continue { pc_increment }
                && (pc_increment == 1 || pc_increment == 0)),
            r == Ok::<OpcodeResult, VMError>(OpcodeResult::Continue { pc_increment: 1 }) ==> {
                &&& final(self).call_frames@.len() == old(self).call_frames@.len()
                &&& frames_gas(final(self).call_frames@) == frames_gas(old(self).call_frames@)
                    + gas_limit
                &&& final(self).cur().gas_used == old(self).cur().gas_used - gas_limit
                &&& final(self).cur().stack@.len() == old(self).cur().stack@.len() + 1
                &&& stacks_unchanged(*old(self), *final(self))
                &&& ctx(final(self).cur()) == ctx(old(self).cur())
            },
            r == Ok::<OpcodeResult, VMError>(OpcodeResult::Continue { pc_increment: 0 }) ==> !(
            should_transfer_value && read_through(
                old(self).db.store,
                old(self).db.model(),
                msg_sender@,
            )[msg_sender@].0 < value.as_nat()),
            r == Ok::<OpcodeResult, VMError>(OpcodeResult::Continue { pc_increment: 0 }) ==> {
                &&& final(self).call_frames@.len() == old(self).call_frames@.len() + 1
                &&& frames_gas(final(self).call_frames@) == frames_gas(old(self).call_frames@)
                    + gas_limit
                &&& ({
                    let child = final(self).cur();
                    &&& child.msg_sender == msg_sender
                    &&& child.to == to
                    &&& child.code_address == code_address
                    &&& child.msg_value == value
                    &&& child.is_static == is_static
                    &&& child.gas_limit == gas_limit
                    &&& child.gas_used == 0
                    &&& child.depth == old(self).cur().depth + 1
                    &&& !child.is_create
                    &&& child.pc == 0
                    &&& child.stack@.len() == 0
                    &&& child.code_view() == bytes_view(bytecode)
                })
                &&& ({
                    let parent = final(self).call_frames@[final(self).call_frames@.len() - 2];
                    &&& ctx(parent) == ctx(old(self).cur())
                    &&& parent.gas_used == old(self).cur().gas_used
                    &&& parent.stack@ == old(self).cur().stack@
                    &&& parent.sub_return_data_view() == Seq::<u8>::empty()
                })
                &&& final(self).return_data@.len() == old(self).return_data@.len() + 1
                &&& ({
                    let rd = final(self).return_data@.last();
                    &&& !rd.is_create
                    &&& rd.ret_offset == ret_offset
                    &&& rd.ret_size == ret_size
                    &&& rd.should_transfer_value == should_transfer_value
                    &&& rd.to == to
                    &&& rd.msg_sender == msg_sender
                    &&& rd.value == value
                    &&& rd.max_message_call_gas == gas_limit
                })
                &&& final(self).return_data@.drop_last() == old(self).return_data@
                &&& final(self).backups@.len() == old(self).backups@.len() + 1
                &&& final(self).backups@.drop_last() == old(self).backups@
                &&& ({
                    let b = final(self).backups@.last();
                    &&& cache_model(b.cache) == final(self).db.model()
                    &&& b.substate.model() == final(self).accrued_substate.model()
                    &&& b.refunded_gas == final(self).env.refunded_gas
                    &&& b.transient_storage@ == final(self).env.transient_storage@
                })
                &&& stacks_extended_by_child(*old(self), *final(self))
            },
            ({
                let f = old(self).cur();
                let m1 = read_through(old(self).db.store, old(self).db.model(), msg_sender@);
                let sender_bal = m1[msg_sender@].0;
                let args_ok = args_size == 0 || args_offset.as_nat() + args_size + 31
                    <= usize::MAX;
                let room = f.stack@.len() < 1024;
                let refund_ok = f.gas_used >= gas_limit;
                let bail_balance = should_transfer_value && sender_bal < value.as_nat();
                let bail_depth = !bail_balance && f.depth == 1024;
                let bail_empty_delegation = !bail_balance && !bail_depth && bytes_view(
                    bytecode,
                ).len() == 0 && is_delegation;
                let m2 = if should_transfer_value {
                    m1.insert(
                        msg_sender@,
                        (
                            (sender_bal - value.as_nat()) as nat,
                            m1[msg_sender@].1,
                            m1[msg_sender@].2,
                            m1[msg_sender@].3,
                        ),
                    )
                } else {
                    m1
                };
                let m3 = read_through(old(self).db.store, m2, to@);
                let to_bal = m3[to@].0;
                let transfer_fits = !should_transfer_value || to_bal + value.as_nat()
                    < crate::word::pow256(32);
                &&& (args_ok && refund_ok && room && (bail_balance || bail_depth
                    || bail_empty_delegation) ==> {
                    &&& r == Ok::<OpcodeResult, VMError>(OpcodeResult::Continue { pc_increment: 1 })
                    &&& final(self).cur().stack@ == f.stack@.push(final(self).cur().stack@.last())
                    &&& (bail_balance || bail_depth ==> final(self).cur().stack@.last().as_nat()
                        == 0)
                    &&& (bail_empty_delegation ==> final(self).cur().stack@.last().as_nat() == 1)
                    &&& final(self).db.model() == m1
                    &&& final(self).accrued_substate.touched_accounts@ == old(
                        self,
                    ).accrued_substate.touched_accounts@.insert(msg_sender@)
                    &&& final(self).cur().sub_return_data_view() == Seq::<u8>::empty()
                })
                &&& (args_ok && room && !bail_balance && !bail_depth && !bail_empty_delegation
                    && transfer_fits ==> r == Ok::<OpcodeResult, VMError>(
                    OpcodeResult::Continue { pc_increment: 0 },
                ))
                &&& (r == Ok::<OpcodeResult, VMError>(OpcodeResult::Continue { pc_increment: 0 })
                    ==> {
                    let child = final(self).cur();
                    let parent = final(self).call_frames@[final(self).call_frames@.len() - 2];
                    &&& (args_size == 0 ==> child.calldata_view() == Seq::<u8>::empty()
                        && parent.memory@ == f.memory@)
                    &&& (args_size > 0 ==> {
                        &&& parent.memory@ == crate::memory::expand_view(
                            f.memory@,
                            crate::memory::round32(args_offset.as_nat() + args_size as int),
                        )
                        &&& child.calldata_view() == parent.memory@.subrange(
                            args_offset.as_nat() as int,
                            args_offset.as_nat() + args_size,
                        )
                    })
                    &&& (should_transfer_value ==> final(self).db.model() == m3.insert(
                        to@,
                        ((to_bal + value.as_nat()) as nat, m3[to@].1, m3[to@].2, m3[to@].3),
                    ))
                    &&& (!should_transfer_value ==> final(self).db.model() == m1)
                })
            }),
    {
        let sender_account_info = access_account(
            &mut self.db,
            &mut self.accrued_substate,
            msg_sender,
        ).0;
        let ghost after_access = *self;
        let mut frame = self.take_frame();
        proof {
            assert(after_access.call_frames@[after_access.call_frames@.len() - 1].wf());
            crate::vm::lemma_frames_wf_drop(after_access.call_frames@);
        }
        frame.sub_return_data = bytes_new();
        let loaded = frame.memory.load_range(&args_offset, args_size);
        let staged: Result<(Vec<u8>, Option<U256>, u16), VMError> = match loaded {
            Ok(calldata) => {
                if should_transfer_value && sender_account_info.balance.lt(&value) {
                    match frame.gas_used.checked_sub(gas_limit) {
                        Some(g) => {
                            frame.gas_used = g;
                            let zero = revert_for_call();
                            Ok((calldata, Some(zero), 0))
                        },
                        None => Err(VMError::Internal(InternalError::GasOverflow)),
                    }
                } else {
                    match frame.depth.checked_add(1) {
                        Some(new_depth) => {
                            if new_depth > 1024 {
                                match frame.gas_used.checked_sub(gas_limit) {
                                    Some(g) => {
                                        frame.gas_used = g;
                                        let zero = revert_for_call();
                                        Ok((calldata, Some(zero), 0))
                                    },
                                    None => Err(VMError::Internal(InternalError::GasOverflow)),
                                }
                            } else if bytes_len(&bytecode) == 0 && is_delegation {
                                match frame.gas_used.checked_sub(gas_limit) {
                                    Some(g) => {
                                        frame.gas_used = g;
                                        let one = success_for_call();
                                        Ok((calldata, Some(one), 0))
                                    },
                                    None => Err(VMError::Internal(InternalError::GasOverflow)),
                                }
                            } else {
                                Ok((calldata, None, new_depth))
                            }
                        },
                        None => Err(VMError::Internal(
                            InternalError::ArithmeticOperationOverflow,
                        )),
                    }
                }
            },
            Err(e) => Err(e),
        };
        let bail_push: Result<(Vec<u8>, Option<U256>, u16), VMError> = match staged {
            Ok((calldata, Some(word), d)) => {
                match frame.stack.push(word) {
                    Ok(()) => Ok((calldata, Some(word), d)),
                    Err(e) => Err(e),
                }
            },
            other => other,
        };
        self.put_frame(frame);
        proof {
            assert(self.call_frames@.drop_last() =~= after_access.call_frames@.drop_last());
            assert(self.call_frames@.last().wf());
            crate::vm::lemma_frames_wf_push(
                after_access.call_frames@.drop_last(),
                self.call_frames@.last(),
            );
            assert(self.call_frames@ =~= after_access.call_frames@.drop_last().push(
                self.call_frames@.last(),
            ));
            crate::vm::lemma_frames_gas_update(after_access.call_frames@, self.call_frames@.last());
            assert(self.call_frames@ =~= after_access.call_frames@.update(
                after_access.call_frames@.len() - 1,
                self.call_frames@.last(),
            ));
        }
        let (calldata, bailed, new_depth) = match bail_push {
            Ok(t) => t,
            Err(e) => {
                return Err(e);
            },
        };
        if bailed.is_some() {
            return Ok(OpcodeResult::Continue { pc_increment: 1 });
        }
        if should_transfer_value {
            self.db.decrease_account_balance(&msg_sender, &value)?;
            self.db.increase_account_balance(&to, &value)?;
        }
        self.return_data.push(
            RetData {
                is_create: false,
                ret_offset,
                ret_size,
                should_transfer_value,
                to,
                msg_sender,
                value,
                max_message_call_gas: gas_limit,
            },
        );
        let new_call_frame = CallFrame::new(
            msg_sender,
            to,
            code_address,
            bytecode,
            value,
            bytes_from_vec(calldata),
            is_static,
            gas_limit,
            0,
            new_depth,
            false,
        );
        let ghost before_child = *self;
        self.put_frame(new_call_frame);
        proof {
            crate::vm::lemma_frames_wf_push(
                before_child.call_frames@,
                self.call_frames@.last(),
            );
            crate::vm::lemma_frames_gas_push(
                before_child.call_frames@,
                self.call_frames@.last(),
            );
            assert(self.call_frames@.drop_last() =~= before_child.call_frames@);
        }
        let backup = self.snapshot();
        self.backups.push(backup);
        proof {
            assert(self.backups@.drop_last() =~= before_child.backups@);
            assert(self.return_data@.drop_last() =~= old(self).return_data@);
            assert(crate::vm::backups_wf(self.backups@)) by {
                assert(forall|i: int| 0 <= i < self.backups@.len() - 1
                    ==> self.backups@[i] == before_child.backups@[i]);
                assert(self.backups@[self.backups@.len() - 1].wf());
            }
            assert(self.call_frames@[self.call_frames@.len() - 2]
                == before_child.call_frames@.last());
        }
        Ok(OpcodeResult::Continue { pc_increment: 0 })
    }

    /// Charge the current frame an amount that is known to fit.
    fn charge_current(&mut self, gas: u64)
        requires
            old(self).wf(),
            old(self).has_frame(),
            old(self).cur().gas_used + gas <= old(self).cur().gas_limit,
        ensures
            final(self).wf(),
            final(self).has_frame(),
            same_world(*old(self), *final(self)),
            final(self).call_frames@.len() == old(self).call_frames@.len(),
            final(self).call_frames@.drop_last() == old(self).call_frames@.drop_last(),
            ctx(final(self).cur()) == ctx(old(self).cur()),
            final(self).cur() == (CallFrame {
                gas_used: (old(self).cur().gas_used + gas) as u64,
                ..old(self).cur()
            }),
            frames_gas(final(self).call_frames@) == frames_gas(old(self).call_frames@) - gas,
            forall|i: int| 0 <= i < old(self).call_frames@.len()
                ==> #[trigger] final(self).call_frames@[i].gas_limit == old(
                self,
            ).call_frames@[i].gas_limit,
    {
        let mut frame = self.take_frame();
        proof {
            assert(old(self).call_frames@[old(self).call_frames@.len() - 1].wf());
            crate::vm::lemma_frames_wf_drop(old(self).call_frames@);
        }
        let charged = frame.increase_consumed_gas(gas);
        proof {
            assert(charged is Ok);
        }
        self.put_frame(frame);
        proof {
            assert(self.call_frames@.drop_last() =~= old(self).call_frames@.drop_last());
            assert(self.call_frames@.last().wf());
            crate::vm::lemma_frames_wf_push(
                old(self).call_frames@.drop_last(),
                self.call_frames@.last(),
            );
            assert(self.call_frames@ =~= old(self).call_frames@.update(
                old(self).call_frames@.len() - 1,
                self.call_frames@.last(),
            ));
            crate::vm::lemma_frames_gas_update(old(self).call_frames@, self.call_frames@.last());
            assert forall|i: int| 0 <= i < old(self).call_frames@.len()
                implies #[trigger] self.call_frames@[i].gas_limit == old(
                self,
            ).call_frames@[i].gas_limit by {
                if i < old(self).call_frames@.len() - 1 {
                    assert(self.call_frames@[i] == old(self).call_frames@.drop_last()[i]);
                }
            }
        }
    }

    // CALL operation
    #[verifier::rlimit(100)]
    pub fn op_call(&mut self) -> (r: Result<OpcodeResult, VMError>)
        requires
            old(self).wf(),
            old(self).has_frame(),
        ensures
            final(self).wf(),
            final(self).has_frame(),
            final(self).env == old(self).env,
            final(self).tx_kind == old(self).tx_kind,
            final(self).access_list == old(self).access_list,
            final(self).cache_backup == old(self).cache_backup,
            final(self).db.store == old(self).db.store,
            final(self).call_frames@.len() >= old(self).call_frames@.len(),
            r is Ok ==> final(self).fuel() < old(self).fuel(),
            r is Err ==> final(self).call_frames@.len() == old(self).call_frames@.len()
                && final(self).fuel() <= old(self).fuel(),
            r is Err ==> stacks_unchanged(*old(self), *final(self)),
            r matches Ok(res) ==> ((res == (OpcodeResult::Continue { pc_increment: 0 })
                ==> stacks_extended_by_child(*old(self), *final(self))) && (res != (
            OpcodeResult::Continue { pc_increment: 0 }) ==> stacks_unchanged(
                *old(self),
                *final(self),
            ))),
            old(self).cur().stack@.len() < 7 ==> r is Err,
            ({
                let f = old(self).cur();
                let n = f.stack@.len();
                &&& (n >= 7 && f.is_static && f.stack@[n - 3].as_nat() != 0
                    && f.stack@[n - 5].as_nat() <= usize::MAX
                    && f.stack@[n - 7].as_nat() <= usize::MAX ==> r == Err::<
                    OpcodeResult,
                    VMError,
                >(VMError::OpcodeNotAllowedInStaticContext))
                &&& (r == Ok::<OpcodeResult, VMError>(OpcodeResult::Continue { pc_increment: 0 })
                    ==> {
                    let child = final(self).cur();
                    &&& final(self).call_frames@.len() == old(self).call_frames@.len() + 1
                    &&& child.msg_sender == f.to
                    &&& child.to@ == f.stack@[n - 2]@.skip(12)
                    &&& child.msg_value == f.stack@[n - 3]
                    &&& child.is_static == f.is_static
                    &&& child.gas_used == 0
                    &&& child.depth == f.depth + 1
                    &&& !child.is_create
                    &&& final(self).return_data@.len() == old(self).return_data@.len() + 1
                    &&& final(self).backups@.len() == old(self).backups@.len() + 1
                    &&& cache_model(final(self).backups@.last().cache) == final(self).db.model()
                })
                &&& (r == Ok::<OpcodeResult, VMError>(OpcodeResult::Continue { pc_increment: 0 })
                    && n >= 7 ==> ({
                    // The EIP-150 rule: the child starts with
                    // min(stack gas, all but a 64th of what was left
                    // after the fixed charges), plus the stipend on a
                    // value-bearing call.
                    let fork = old(self).env.config.fork;
                    let gas_w = f.stack@[n - 1];
                    let callee_a = f.stack@[n - 2]@.skip(12);
                    let value_nat = f.stack@[n - 3].as_nat();
                    let args_off = f.stack@[n - 4].as_nat() as int;
                    let args_sz = f.stack@[n - 5].as_nat() as int;
                    let ret_off = f.stack@[n - 6].as_nat() as int;
                    let ret_sz = f.stack@[n - 7].as_nat() as int;
                    let grown_args = if args_sz == 0 { 0int } else {
                        crate::memory::round32(args_off + args_sz)
                    };
                    let grown_ret = if ret_sz == 0 { 0int } else {
                        crate::memory::round32(ret_off + ret_sz)
                    };
                    let expansion = crate::gas_cost::mem_expansion(
                        vstd::math::max(grown_args, grown_ret),
                        f.memory@.len() as int,
                    );
                    let cold = !old(self).accrued_substate.touched_accounts@.contains(callee_a);
                    let m1 = read_through(old(self).db.store, old(self).db.model(), callee_a);
                    let acct = m1[callee_a];
                    let callee_empty = acct.0 == 0 && acct.1 == 0 && acct.2.len() == 0;
                    let existed = old(self).db.model().contains_key(callee_a)
                        || old(self).db.store.has_account(callee_a);
                    let dead = if crate::fork::fork_num(fork) >= crate::fork::fork_num(
                        Fork::SpuriousDragon,
                    ) {
                        callee_empty
                    } else {
                        !existed
                    };
                    let deleg = crate::utils::is_delegation_code(acct.2);
                    let g7702: int = if deleg {
                        if old(self).accrued_substate.touched_accounts@.insert(callee_a).contains(
                            crate::utils::delegated_address(acct.2),
                        ) {
                            100
                        } else {
                            2600
                        }
                    } else {
                        0
                    };
                    let fixed = expansion + crate::gas_cost::call_access_cost(cold, fork) + (
                    if value_nat != 0 {
                        9000int
                    } else {
                        0int
                    }) + (if value_nat != 0 && dead {
                        25000int
                    } else {
                        0int
                    });
                    let available = f.gas_limit - f.gas_used - g7702 - fixed;
                    let forwarded = vstd::math::min(
                        gas_w.as_nat() as int,
                        crate::gas_cost::l64(available),
                    );
                    final(self).cur().gas_limit == forwarded + (if value_nat != 0 {
                        2300int
                    } else {
                        0int
                    })
                }))
            }),
    {
        let ghost fuel0 = old(self).fuel();
        let mut frame = self.take_frame();
        proof {
            assert(old(self).call_frames@[old(self).call_frames@.len() - 1].wf());
            crate::vm::lemma_frames_wf_drop(old(self).call_frames@);
        }
        let popped = match frame.stack.pop() {
            Ok(gas) => match frame.stack.pop() {
                Ok(callee_w) => match frame.stack.pop() {
                    Ok(value) => match frame.stack.pop() {
                        Ok(args_off) => match frame.stack.pop() {
                            Ok(args_size_w) => match frame.stack.pop() {
                                Ok(ret_off) => match frame.stack.pop() {
                                    Ok(ret_size_w) => Ok((
                                        gas,
                                        callee_w,
                                        value,
                                        args_off,
                                        args_size_w,
                                        ret_off,
                                        ret_size_w,
                                    )),
                                    Err(e) => Err(e),
                                },
                                Err(e) => Err(e),
                            },
                            Err(e) => Err(e),
                        },
                        Err(e) => Err(e),
                    },
                    Err(e) => Err(e),
                },
                Err(e) => Err(e),
            },
            Err(e) => Err(e),
        };
        let current_memory_size = frame.memory.len();
        let is_static = frame.is_static;
        let msg_sender_for_child = frame.to;
        self.put_frame(frame);
        proof {
            assert(self.call_frames@.drop_last() =~= old(self).call_frames@.drop_last());
            assert(self.call_frames@.last().wf());
            crate::vm::lemma_frames_wf_push(
                old(self).call_frames@.drop_last(),
                self.call_frames@.last(),
            );
            assert(self.call_frames@ =~= old(self).call_frames@.drop_last().push(
                self.call_frames@.last(),
            ));
            crate::vm::lemma_frames_gas_update(old(self).call_frames@, self.call_frames@.last());
            assert(self.call_frames@ =~= old(self).call_frames@.update(
                old(self).call_frames@.len() - 1,
                self.call_frames@.last(),
            ));
            assert forall|i: int| 0 <= i < old(self).call_frames@.len()
                implies #[trigger] self.call_frames@[i].gas_limit == old(
                self,
            ).call_frames@[i].gas_limit by {
                if i < old(self).call_frames@.len() - 1 {
                    assert(self.call_frames@[i] == old(self).call_frames@.drop_last()[i]);
                }
            }
        }
        let (gas, callee_w, value_to_transfer, args_start_offset, args_size_w, ret_off, ret_size_w) =
            match popped {
            Ok(t) => t,
            Err(e) => {
                return Err(e);
            },
        };
        let callee = word_to_address(&callee_w);
        let args_size = match args_size_w.to_usize() {
            Some(s) => s,
            None => {
                return Err(VMError::VeryLargeNumber);
            },
        };
        let return_data_size = match ret_size_w.to_usize() {
            Some(s) => s,
            None => {
                return Err(VMError::VeryLargeNumber);
            },
        };
        if is_static && !value_to_transfer.is_zero() {
            return Err(VMError::OpcodeNotAllowedInStaticContext);
        }
        let new_memory_size_for_args = crate::memory::calculate_memory_size(
            &args_start_offset,
            args_size,
        )?;
        let new_memory_size_for_return_data = crate::memory::calculate_memory_size(
            &ret_off,
            return_data_size,
        )?;
        let new_memory_size = if new_memory_size_for_args > new_memory_size_for_return_data {
            new_memory_size_for_args
        } else {
            new_memory_size_for_return_data
        };
        let callee_exists = self.db.account_exists(&callee);
        let (account_info, address_was_cold) = access_account(
            &mut self.db,
            &mut self.accrued_substate,
            callee,
        );
        let callee_is_empty = account_info.is_empty();
        let (is_delegation, eip7702_gas_consumed, code_address, bytecode) = eip7702_get_code(
            &mut self.db,
            &mut self.accrued_substate,
            callee,
        );
        let fork = self.env.config.fork;
        let cur_ref = self.current_call_frame()?;
        let gas_left = match cur_ref.gas_limit.checked_sub(cur_ref.gas_used) {
            Some(g) => g,
            None => {
                return Err(VMError::Internal(InternalError::GasOverflow));
            },
        };
        let gas_left = match gas_left.checked_sub(eip7702_gas_consumed) {
            Some(g) => g,
            None => {
                return Err(VMError::Internal(InternalError::GasOverflow));
            },
        };
        let expansion = gas_cost::memory_expansion_cost(new_memory_size, current_memory_size)?;
        let access = gas_cost::call_access_cost_exec(address_was_cold, fork);
        let with_value = !value_to_transfer.is_zero();
        let positive_value_cost: u64 = if with_value {
            9000
        } else {
            0
        };
        let considered_dead = if fork.at_least(Fork::SpuriousDragon) {
            callee_is_empty
        } else {
            !callee_exists
        };
        let value_to_empty_cost: u64 = if with_value && considered_dead {
            25000
        } else {
            0
        };
        let partial1 = match expansion.checked_add(access) {
            Some(t) => t,
            None => {
                return Err(VMError::OutOfGas(OutOfGasError::GasCostOverflow));
            },
        };
        let partial2 = match partial1.checked_add(positive_value_cost) {
            Some(t) => t,
            None => {
                return Err(VMError::OutOfGas(OutOfGasError::GasCostOverflow));
            },
        };
        let fixed_cost = match partial2.checked_add(value_to_empty_cost) {
            Some(t) => t,
            None => {
                return Err(VMError::OutOfGas(OutOfGasError::GasCostOverflow));
            },
        };
        let (cost, gas_limit) = gas_cost::call_gas(fixed_cost, &gas, gas_left, with_value)?;
        proof {
            assert(access >= 40);
            assert(fixed_cost >= 40);
            assert(with_value ==> fixed_cost >= 9000);
            assert(cost <= gas_left);
            assert(cost - gas_limit == fixed_cost - (if with_value { 2300int } else { 0int }));
        }
        let ghost mid1 = *self;
        self.charge_current(cost);
        self.charge_current(eip7702_gas_consumed);
        let ghost g2 = frames_gas(self.call_frames@);
        proof {
            assert(g2 == frames_gas(mid1.call_frames@) - cost - eip7702_gas_consumed);
        }
        let result = self.generic_call(
            gas_limit,
            value_to_transfer,
            msg_sender_for_child,
            callee,
            code_address,
            true,
            is_static,
            args_start_offset,
            args_size,
            ret_off,
            return_data_size,
            bytecode,
            is_delegation,
        );
        proof {
            let l0 = old(self).call_frames@.len() as int;
            let g0 = frames_gas(old(self).call_frames@);
            assert(frames_gas(mid1.call_frames@) == g0);
            assert(mid1.call_frames@.len() == l0);
            let margin = fixed_cost - (if with_value { 2300int } else { 0int });
            assert(margin >= 40 || margin >= 6700);
            match result {
                Ok(res) => {
                    if res == (OpcodeResult::Continue { pc_increment: 1 }) {
                        assert(frames_gas(self.call_frames@) == g2 + gas_limit);
                        assert(self.call_frames@.len() == l0);
                        assert(self.fuel() == 2 * (g0 - cost - eip7702_gas_consumed + gas_limit)
                            + l0);
                        assert(self.fuel() < old(self).fuel());
                    } else {
                        assert(res == (OpcodeResult::Continue { pc_increment: 0 }));
                        assert(frames_gas(self.call_frames@) == g2 + gas_limit);
                        assert(self.call_frames@.len() == l0 + 1);
                        assert(self.fuel() < old(self).fuel());
                    }
                },
                Err(_) => {
                    assert(frames_gas(self.call_frames@) <= g2 + gas_limit);
                    assert(self.call_frames@.len() == l0);
                    assert(self.fuel() <= old(self).fuel());
                },
            }
        }
        result
    }

    /// Shared tail of CALLCODE, DELEGATECALL and STATICCALL: resolve
    /// delegation, charge the fixed and forwarded gas, and hand over
    /// to `generic_call`.
    #[verifier::rlimit(30)]
    fn call_variant_tail(
        &mut self,
        target: Address,
        gas: U256,
        value: U256,
        msg_sender: Address,
        to_self: bool,
        should_transfer_value: bool,
        is_static_child: bool,
        with_value_cost: bool,
        resolve_code_address: bool,
        args_start_offset: U256,
        args_size: usize,
        ret_off: U256,
        return_data_size: usize,
        current_memory_size: usize,
        new_memory_size: usize,
    ) -> (r: Result<OpcodeResult, VMError>)
        requires
            old(self).wf(),
            old(self).has_frame(),
        ensures
            final(self).wf(),
            final(self).has_frame(),
            final(self).env == old(self).env,
            final(self).tx_kind == old(self).tx_kind,
            final(self).access_list == old(self).access_list,
            final(self).cache_backup == old(self).cache_backup,
            final(self).db.store == old(self).db.store,
            final(self).call_frames@.len() >= old(self).call_frames@.len(),
            r is Ok ==> final(self).fuel() < old(self).fuel(),
            r is Err ==> final(self).call_frames@.len() == old(self).call_frames@.len()
                && final(self).fuel() <= old(self).fuel(),
            r is Err ==> stacks_unchanged(*old(self), *final(self)),
            r matches Ok(res) ==> ((res == (OpcodeResult::Continue { pc_increment: 0 })
                ==> stacks_extended_by_child(*old(self), *final(self))) && (res != (
            OpcodeResult::Continue { pc_increment: 0 }) ==> stacks_unchanged(
                *old(self),
                *final(self),
            ))),
            r == Ok::<OpcodeResult, VMError>(OpcodeResult::Continue { pc_increment: 0 }) ==> {
                let child = final(self).cur();
                &&& final(self).call_frames@.len() == old(self).call_frames@.len() + 1
                &&& child.msg_sender == msg_sender
                &&& (to_self ==> child.to == old(self).cur().to)
                &&& (!to_self ==> child.to == target)
                &&& child.msg_value == value
                &&& child.is_static == is_static_child
                &&& child.gas_used == 0
                &&& child.depth == old(self).cur().depth + 1
                &&& !child.is_create
                &&& final(self).return_data@.len() == old(self).return_data@.len() + 1
                &&& final(self).backups@.len() == old(self).backups@.len() + 1
                &&& cache_model(final(self).backups@.last().cache) == final(self).db.model()
            },
            r == Ok::<OpcodeResult, VMError>(OpcodeResult::Continue { pc_increment: 0 }) ==> ({
                // The code the child runs comes from the target, an
                // EIP-7702 designator followed one hop; its gas is the
                // EIP-150 minimum plus the stipend on a value call.
                let child = final(self).cur();
                let f = old(self).cur();
                let fork = old(self).env.config.fork;
                let m1 = read_through(old(self).db.store, old(self).db.model(), target@);
                let code1 = m1[target@].2;
                let deleg = crate::utils::is_delegation_code(code1);
                let delegated = crate::utils::delegated_address(code1);
                let g7702: int = if deleg {
                    if old(self).accrued_substate.touched_accounts@.insert(target@).contains(
                        delegated,
                    ) {
                        100
                    } else {
                        2600
                    }
                } else {
                    0
                };
                let cold = !old(self).accrued_substate.touched_accounts@.contains(target@);
                let fixed = crate::gas_cost::mem_expansion(
                    new_memory_size as int,
                    current_memory_size as int,
                ) + crate::gas_cost::call_access_cost(cold, fork) + (if with_value_cost
                    && value.as_nat() != 0 {
                    9000int
                } else {
                    0int
                });
                let available = f.gas_limit - f.gas_used - g7702 - fixed;
                let forwarded = vstd::math::min(
                    gas.as_nat() as int,
                    crate::gas_cost::l64(available),
                );
                &&& (deleg ==> child.code_view() == read_through(
                    old(self).db.store,
                    m1,
                    delegated,
                )[delegated].2)
                &&& (!deleg ==> child.code_view() == code1)
                &&& (deleg && resolve_code_address ==> child.code_address@ == delegated)
                &&& (!(deleg && resolve_code_address) ==> child.code_address@ == target@)
                &&& child.gas_limit == forwarded + (if with_value_cost && value.as_nat() != 0 {
                    2300int
                } else {
                    0int
                })
            }),
            r == Ok::<OpcodeResult, VMError>(OpcodeResult::Continue { pc_increment: 0 }) && (
            !should_transfer_value || value.as_nat() == 0 || msg_sender == old(self).cur().to)
                && (to_self || value.as_nat() == 0) ==> (forall|a: Seq<u8>|
                #[trigger] old(self).db.model().contains_key(a)
                    ==> final(self).db.model().contains_key(a) && final(self).db.model()[a].0
                    == old(self).db.model()[a].0),
    {
        let (_account_info, address_was_cold) = access_account(
            &mut self.db,
            &mut self.accrued_substate,
            target,
        );
        let (is_delegation, eip7702_gas_consumed, resolved_code_address, bytecode) =
            eip7702_get_code(&mut self.db, &mut self.accrued_substate, target);
        let code_address = if resolve_code_address {
            resolved_code_address
        } else {
            target
        };
        let fork = self.env.config.fork;
        let cur_ref = self.current_call_frame()?;
        let to = if to_self {
            cur_ref.to
        } else {
            target
        };
        let gas_left = match cur_ref.gas_limit.checked_sub(cur_ref.gas_used) {
            Some(g) => g,
            None => {
                return Err(VMError::Internal(InternalError::GasOverflow));
            },
        };
        let gas_left = match gas_left.checked_sub(eip7702_gas_consumed) {
            Some(g) => g,
            None => {
                return Err(VMError::Internal(InternalError::GasOverflow));
            },
        };
        let expansion = gas_cost::memory_expansion_cost(new_memory_size, current_memory_size)?;
        let access = gas_cost::call_access_cost_exec(address_was_cold, fork);
        let positive_value_cost: u64 = if with_value_cost && !value.is_zero() {
            9000
        } else {
            0
        };
        let partial1 = match expansion.checked_add(access) {
            Some(t) => t,
            None => {
                return Err(VMError::OutOfGas(OutOfGasError::GasCostOverflow));
            },
        };
        let fixed_cost = match partial1.checked_add(positive_value_cost) {
            Some(t) => t,
            None => {
                return Err(VMError::OutOfGas(OutOfGasError::GasCostOverflow));
            },
        };
        let with_stipend = with_value_cost && !value.is_zero();
        let (cost, gas_limit) = gas_cost::call_gas(fixed_cost, &gas, gas_left, with_stipend)?;
        proof {
            assert(access >= 40);
            assert(fixed_cost >= 40);
            assert(with_stipend ==> fixed_cost >= 9000);
            assert(cost <= gas_left);
            assert(cost - gas_limit == fixed_cost - (if with_stipend { 2300int } else { 0int }));
        }
        let ghost mid1 = *self;
        self.charge_current(cost);
        self.charge_current(eip7702_gas_consumed);
        let ghost g2 = frames_gas(self.call_frames@);
        proof {
            assert(g2 == frames_gas(mid1.call_frames@) - cost - eip7702_gas_consumed);
        }
        let result = self.generic_call(
            gas_limit,
            value,
            msg_sender,
            to,
            code_address,
            should_transfer_value,
            is_static_child,
            args_start_offset,
            args_size,
            ret_off,
            return_data_size,
            bytecode,
            is_delegation,
        );
        proof {
            let l0 = old(self).call_frames@.len() as int;
            let g0 = frames_gas(old(self).call_frames@);
            assert(frames_gas(mid1.call_frames@) == g0);
            assert(mid1.call_frames@.len() == l0);
            match result {
                Ok(res) => {
                    if res == (OpcodeResult::Continue { pc_increment: 1 }) {
                        assert(frames_gas(self.call_frames@) == g2 + gas_limit);
                        assert(self.call_frames@.len() == l0);
                        assert(self.fuel() < old(self).fuel());
                    } else {
                        assert(res == (OpcodeResult::Continue { pc_increment: 0 }));
                        assert(frames_gas(self.call_frames@) == g2 + gas_limit);
                        assert(self.call_frames@.len() == l0 + 1);
                        assert(self.fuel() < old(self).fuel());
                    }
                },
                Err(_) => {
                    assert(frames_gas(self.call_frames@) <= g2 + gas_limit);
                    assert(self.call_frames@.len() == l0);
                    assert(self.fuel() <= old(self).fuel());
                },
            }
        }
        result
    }

    // CALLCODE operation
    pub fn op_callcode(&mut self) -> (r: Result<OpcodeResult, VMError>)
        requires
            old(self).wf(),
            old(self).has_frame(),
        ensures
            final(self).wf(),
            final(self).has_frame(),
            final(self).env == old(self).env,
            final(self).tx_kind == old(self).tx_kind,
            final(self).access_list == old(self).access_list,
            final(self).cache_backup == old(self).cache_backup,
            final(self).db.store == old(self).db.store,
            final(self).call_frames@.len() >= old(self).call_frames@.len(),
            r is Ok ==> final(self).fuel() < old(self).fuel(),
            r is Err ==> final(self).call_frames@.len() == old(self).call_frames@.len()
                && final(self).fuel() <= old(self).fuel(),
            r is Err ==> stacks_unchanged(*old(self), *final(self)),
            r matches Ok(res) ==> ((res == (OpcodeResult::Continue { pc_increment: 0 })
                ==> stacks_extended_by_child(*old(self), *final(self))) && (res != (
            OpcodeResult::Continue { pc_increment: 0 }) ==> stacks_unchanged(
                *old(self),
                *final(self),
            ))),
            old(self).cur().stack@.len() < 7 ==> r is Err,
            r == Ok::<OpcodeResult, VMError>(OpcodeResult::Continue { pc_increment: 0 }) ==> {
                let child = final(self).cur();
                &&& final(self).call_frames@.len() == old(self).call_frames@.len() + 1
                &&& child.msg_sender == old(self).cur().to
                &&& child.to == old(self).cur().to
                &&& child.msg_value == old(self).cur().stack@[old(self).cur().stack@.len() - 3]
                &&& child.is_static == old(self).cur().is_static
                &&& child.gas_used == 0
                &&& child.depth == old(self).cur().depth + 1
                &&& !child.is_create
            },
            // The code comes from the popped code address (EIP-7702
            // resolved); the self-transfer leaves every balance as it
            // was; the forwarded gas obeys EIP-150.
            r == Ok::<OpcodeResult, VMError>(OpcodeResult::Continue { pc_increment: 0 })
                && old(self).cur().stack@.len() >= 7 ==> ({
                let child = final(self).cur();
                let f = old(self).cur();
                let n = f.stack@.len();
                let fork = old(self).env.config.fork;
                let target = f.stack@[n - 2]@.skip(12);
                let value_nat = f.stack@[n - 3].as_nat();
                let gas_w = f.stack@[n - 1];
                let args_off = f.stack@[n - 4].as_nat() as int;
                let args_sz = f.stack@[n - 5].as_nat() as int;
                let ret_off = f.stack@[n - 6].as_nat() as int;
                let ret_sz = f.stack@[n - 7].as_nat() as int;
                let grown_args = if args_sz == 0 { 0int } else {
                    crate::memory::round32(args_off + args_sz)
                };
                let grown_ret = if ret_sz == 0 { 0int } else {
                    crate::memory::round32(ret_off + ret_sz)
                };
                let expansion = crate::gas_cost::mem_expansion(
                    vstd::math::max(grown_args, grown_ret),
                    f.memory@.len() as int,
                );
                let m1 = read_through(old(self).db.store, old(self).db.model(), target);
                let code1 = m1[target].2;
                let deleg = crate::utils::is_delegation_code(code1);
                let delegated = crate::utils::delegated_address(code1);
                let g7702: int = if deleg {
                    if old(self).accrued_substate.touched_accounts@.insert(target).contains(
                        delegated,
                    ) {
                        100
                    } else {
                        2600
                    }
                } else {
                    0
                };
                let cold = !old(self).accrued_substate.touched_accounts@.contains(target);
                let fixed = expansion + crate::gas_cost::call_access_cost(cold, fork) + (
                if value_nat != 0 {
                    9000int
                } else {
                    0int
                });
                let available = f.gas_limit - f.gas_used - g7702 - fixed;
                let forwarded = vstd::math::min(
                    gas_w.as_nat() as int,
                    crate::gas_cost::l64(available),
                );
                &&& (deleg ==> child.code_view() == read_through(
                    old(self).db.store,
                    m1,
                    delegated,
                )[delegated].2 && child.code_address@ == delegated)
                &&& (!deleg ==> child.code_view() == code1 && child.code_address@ == target)
                &&& child.gas_limit == forwarded + (if value_nat != 0 { 2300int } else { 0int })
                &&& (value_nat == 0 || m1[old(self).cur().to@].0 >= value_nat ==> forall|a: Seq<
                    u8,
                >| #[trigger] old(self).db.model().contains_key(a)
                    ==> final(self).db.model().contains_key(a) && final(self).db.model()[a].0
                    == old(self).db.model()[a].0)
            }),
    {
        let mut frame = self.take_frame();
        proof {
            assert(old(self).call_frames@[old(self).call_frames@.len() - 1].wf());
            crate::vm::lemma_frames_wf_drop(old(self).call_frames@);
        }
        let popped = match frame.stack.pop() {
            Ok(gas) => match frame.stack.pop() {
                Ok(code_w) => match frame.stack.pop() {
                    Ok(value) => match frame.stack.pop() {
                        Ok(args_off) => match frame.stack.pop() {
                            Ok(args_size_w) => match frame.stack.pop() {
                                Ok(ret_off) => match frame.stack.pop() {
                                    Ok(ret_size_w) => Ok((
                                        gas,
                                        code_w,
                                        value,
                                        args_off,
                                        args_size_w,
                                        ret_off,
                                        ret_size_w,
                                    )),
                                    Err(e) => Err(e),
                                },
                                Err(e) => Err(e),
                            },
                            Err(e) => Err(e),
                        },
                        Err(e) => Err(e),
                    },
                    Err(e) => Err(e),
                },
                Err(e) => Err(e),
            },
            Err(e) => Err(e),
        };
        let current_memory_size = frame.memory.len();
        let is_static = frame.is_static;
        let sender = frame.to;
        self.put_frame(frame);
        proof {
            assert(self.call_frames@.drop_last() =~= old(self).call_frames@.drop_last());
            assert(self.call_frames@.last().wf());
            crate::vm::lemma_frames_wf_push(
                old(self).call_frames@.drop_last(),
                self.call_frames@.last(),
            );
            crate::vm::lemma_frames_gas_update(old(self).call_frames@, self.call_frames@.last());
            assert(self.call_frames@ =~= old(self).call_frames@.update(
                old(self).call_frames@.len() - 1,
                self.call_frames@.last(),
            ));
            assert forall|i: int| 0 <= i < old(self).call_frames@.len()
                implies #[trigger] self.call_frames@[i].gas_limit == old(
                self,
            ).call_frames@[i].gas_limit by {
                if i < old(self).call_frames@.len() - 1 {
                    assert(self.call_frames@[i] == old(self).call_frames@.drop_last()[i]);
                }
            }
        }
        let (gas, code_w, value, args_off, args_size_w, ret_off, ret_size_w) = match popped {
            Ok(t) => t,
            Err(e) => {
                return Err(e);
            },
        };
        let code_address = word_to_address(&code_w);
        let args_size = match args_size_w.to_usize() {
            Some(s) => s,
            None => {
                return Err(VMError::VeryLargeNumber);
            },
        };
        let return_data_size = match ret_size_w.to_usize() {
            Some(s) => s,
            None => {
                return Err(VMError::VeryLargeNumber);
            },
        };
        let a = crate::memory::calculate_memory_size(&args_off, args_size)?;
        let b = crate::memory::calculate_memory_size(&ret_off, return_data_size)?;
        let new_memory_size = if a > b {
            a
        } else {
            b
        };
        self.call_variant_tail(
            code_address,
            gas,
            value,
            sender,
            true,
            true,
            is_static,
            true,
            true,
            args_off,
            args_size,
            ret_off,
            return_data_size,
            current_memory_size,
            new_memory_size,
        )
    }

    // DELEGATECALL operation
    pub fn op_delegatecall(&mut self) -> (r: Result<OpcodeResult, VMError>)
        requires
            old(self).wf(),
            old(self).has_frame(),
        ensures
            final(self).wf(),
            final(self).has_frame(),
            final(self).env == old(self).env,
            final(self).tx_kind == old(self).tx_kind,
            final(self).access_list == old(self).access_list,
            final(self).cache_backup == old(self).cache_backup,
            final(self).db.store == old(self).db.store,
            final(self).call_frames@.len() >= old(self).call_frames@.len(),
            r is Ok ==> final(self).fuel() < old(self).fuel(),
            r is Err ==> final(self).call_frames@.len() == old(self).call_frames@.len()
                && final(self).fuel() <= old(self).fuel(),
            r is Err ==> stacks_unchanged(*old(self), *final(self)),
            r matches Ok(res) ==> ((res == (OpcodeResult::Continue { pc_increment: 0 })
                ==> stacks_extended_by_child(*old(self), *final(self))) && (res != (
            OpcodeResult::Continue { pc_increment: 0 }) ==> stacks_unchanged(
                *old(self),
                *final(self),
            ))),
            crate::fork::fork_num(old(self).env.config.fork) < crate::fork::fork_num(
                Fork::Homestead,
            ) ==> r == Err::<OpcodeResult, VMError>(VMError::InvalidOpcode),
            old(self).cur().stack@.len() < 6 && crate::fork::fork_num(old(self).env.config.fork)
                >= crate::fork::fork_num(Fork::Homestead) ==> r is Err,
            r == Ok::<OpcodeResult, VMError>(OpcodeResult::Continue { pc_increment: 0 }) ==> {
                let child = final(self).cur();
                &&& final(self).call_frames@.len() == old(self).call_frames@.len() + 1
                &&& child.msg_sender == old(self).cur().msg_sender
                &&& child.to == old(self).cur().to
                &&& child.msg_value == old(self).cur().msg_value
                &&& child.is_static == old(self).cur().is_static
                &&& child.gas_used == 0
                &&& child.depth == old(self).cur().depth + 1
                &&& !child.is_create
            },
            // The child runs the popped address's code (EIP-7702
            // resolved); no value moves; the forwarded gas obeys
            // EIP-150.
            r == Ok::<OpcodeResult, VMError>(OpcodeResult::Continue { pc_increment: 0 })
                && old(self).cur().stack@.len() >= 6 ==> ({
                let child = final(self).cur();
                let f = old(self).cur();
                let n = f.stack@.len();
                let fork = old(self).env.config.fork;
                let target = f.stack@[n - 2]@.skip(12);
                let gas_w = f.stack@[n - 1];
                let args_off = f.stack@[n - 3].as_nat() as int;
                let args_sz = f.stack@[n - 4].as_nat() as int;
                let ret_off = f.stack@[n - 5].as_nat() as int;
                let ret_sz = f.stack@[n - 6].as_nat() as int;
                let grown_args = if args_sz == 0 { 0int } else {
                    crate::memory::round32(args_off + args_sz)
                };
                let grown_ret = if ret_sz == 0 { 0int } else {
                    crate::memory::round32(ret_off + ret_sz)
                };
                let expansion = crate::gas_cost::mem_expansion(
                    vstd::math::max(grown_args, grown_ret),
                    f.memory@.len() as int,
                );
                let m1 = read_through(old(self).db.store, old(self).db.model(), target);
                let code1 = m1[target].2;
                let deleg = crate::utils::is_delegation_code(code1);
                let delegated = crate::utils::delegated_address(code1);
                let g7702: int = if deleg {
                    if old(self).accrued_substate.touched_accounts@.insert(target).contains(
                        delegated,
                    ) {
                        100
                    } else {
                        2600
                    }
                } else {
                    0
                };
                let cold = !old(self).accrued_substate.touched_accounts@.contains(target);
                let fixed = expansion + crate::gas_cost::call_access_cost(cold, fork);
                let available = f.gas_limit - f.gas_used - g7702 - fixed;
                let forwarded = vstd::math::min(
                    gas_w.as_nat() as int,
                    crate::gas_cost::l64(available),
                );
                &&& (deleg ==> child.code_view() == read_through(
                    old(self).db.store,
                    m1,
                    delegated,
                )[delegated].2 && child.code_address@ == delegated)
                &&& (!deleg ==> child.code_view() == code1 && child.code_address@ == target)
                &&& child.gas_limit == forwarded
                &&& (forall|a: Seq<u8>| #[trigger] old(self).db.model().contains_key(a)
                    ==> final(self).db.model().contains_key(a) && final(self).db.model()[a].0
                    == old(self).db.model()[a].0)
            }),
    {
        if self.env.config.fork.before(Fork::Homestead) {
            return Err(VMError::InvalidOpcode);
        }
        let mut frame = self.take_frame();
        proof {
            assert(old(self).call_frames@[old(self).call_frames@.len() - 1].wf());
            crate::vm::lemma_frames_wf_drop(old(self).call_frames@);
        }
        let popped = match frame.stack.pop() {
            Ok(gas) => match frame.stack.pop() {
                Ok(code_w) => match frame.stack.pop() {
                    Ok(args_off) => match frame.stack.pop() {
                        Ok(args_size_w) => match frame.stack.pop() {
                            Ok(ret_off) => match frame.stack.pop() {
                                Ok(ret_size_w) => Ok((
                                    gas,
                                    code_w,
                                    args_off,
                                    args_size_w,
                                    ret_off,
                                    ret_size_w,
                                )),
                                Err(e) => Err(e),
                            },
                            Err(e) => Err(e),
                        },
                        Err(e) => Err(e),
                    },
                    Err(e) => Err(e),
                },
                Err(e) => Err(e),
            },
            Err(e) => Err(e),
        };
        let current_memory_size = frame.memory.len();
        let is_static = frame.is_static;
        let msg_sender = frame.msg_sender;
        let value = frame.msg_value;
        self.put_frame(frame);
        proof {
            assert(self.call_frames@.drop_last() =~= old(self).call_frames@.drop_last());
            assert(self.call_frames@.last().wf());
            crate::vm::lemma_frames_wf_push(
                old(self).call_frames@.drop_last(),
                self.call_frames@.last(),
            );
            crate::vm::lemma_frames_gas_update(old(self).call_frames@, self.call_frames@.last());
            assert(self.call_frames@ =~= old(self).call_frames@.update(
                old(self).call_frames@.len() - 1,
                self.call_frames@.last(),
            ));
            assert forall|i: int| 0 <= i < old(self).call_frames@.len()
                implies #[trigger] self.call_frames@[i].gas_limit == old(
                self,
            ).call_frames@[i].gas_limit by {
                if i < old(self).call_frames@.len() - 1 {
                    assert(self.call_frames@[i] == old(self).call_frames@.drop_last()[i]);
                }
            }
        }
        let (gas, code_w, args_off, args_size_w, ret_off, ret_size_w) = match popped {
            Ok(t) => t,
            Err(e) => {
                return Err(e);
            },
        };
        let code_address = word_to_address(&code_w);
        let args_size = match args_size_w.to_usize() {
            Some(s) => s,
            None => {
                return Err(VMError::VeryLargeNumber);
            },
        };
        let return_data_size = match ret_size_w.to_usize() {
            Some(s) => s,
            None => {
                return Err(VMError::VeryLargeNumber);
            },
        };
        let a = crate::memory::calculate_memory_size(&args_off, args_size)?;
        let b = crate::memory::calculate_memory_size(&ret_off, return_data_size)?;
        let new_memory_size = if a > b {
            a
        } else {
            b
        };
        self.call_variant_tail(
            code_address,
            gas,
            value,
            msg_sender,
            true,
            false,
            is_static,
            false,
            true,
            args_off,
            args_size,
            ret_off,
            return_data_size,
            current_memory_size,
            new_memory_size,
        )
    }

    // STATICCALL operation
    pub fn op_staticcall(&mut self) -> (r: Result<OpcodeResult, VMError>)
        requires
            old(self).wf(),
            old(self).has_frame(),
        ensures
            final(self).wf(),
            final(self).has_frame(),
            final(self).env == old(self).env,
            final(self).tx_kind == old(self).tx_kind,
            final(self).access_list == old(self).access_list,
            final(self).cache_backup == old(self).cache_backup,
            final(self).db.store == old(self).db.store,
            final(self).call_frames@.len() >= old(self).call_frames@.len(),
            r is Ok ==> final(self).fuel() < old(self).fuel(),
            r is Err ==> final(self).call_frames@.len() == old(self).call_frames@.len()
                && final(self).fuel() <= old(self).fuel(),
            r is Err ==> stacks_unchanged(*old(self), *final(self)),
            r matches Ok(res) ==> ((res == (OpcodeResult::Continue { pc_increment: 0 })
                ==> stacks_extended_by_child(*old(self), *final(self))) && (res != (
            OpcodeResult::Continue { pc_increment: 0 }) ==> stacks_unchanged(
                *old(self),
                *final(self),
            ))),
            crate::fork::fork_num(old(self).env.config.fork) < crate::fork::fork_num(
                Fork::Byzantium,
            ) ==> r == Err::<OpcodeResult, VMError>(VMError::InvalidOpcode),
            old(self).cur().stack@.len() < 6 && crate::fork::fork_num(old(self).env.config.fork)
                >= crate::fork::fork_num(Fork::Byzantium) ==> r is Err,
            r == Ok::<OpcodeResult, VMError>(OpcodeResult::Continue { pc_increment: 0 }) ==> {
                let child = final(self).cur();
                &&& final(self).call_frames@.len() == old(self).call_frames@.len() + 1
                &&& child.msg_sender == old(self).cur().to
                &&& child.msg_value.as_nat() == 0
                &&& child.is_static
                &&& child.gas_used == 0
                &&& child.depth == old(self).cur().depth + 1
                &&& !child.is_create
            },
            // The child's account and code address are the popped
            // target (the code itself still follows a delegation
            // designator); no value moves; EIP-150 caps the gas.
            r == Ok::<OpcodeResult, VMError>(OpcodeResult::Continue { pc_increment: 0 })
                && old(self).cur().stack@.len() >= 6 ==> ({
                let child = final(self).cur();
                let f = old(self).cur();
                let n = f.stack@.len();
                let fork = old(self).env.config.fork;
                let target = f.stack@[n - 2]@.skip(12);
                let gas_w = f.stack@[n - 1];
                let args_off = f.stack@[n - 3].as_nat() as int;
                let args_sz = f.stack@[n - 4].as_nat() as int;
                let ret_off = f.stack@[n - 5].as_nat() as int;
                let ret_sz = f.stack@[n - 6].as_nat() as int;
                let grown_args = if args_sz == 0 { 0int } else {
                    crate::memory::round32(args_off + args_sz)
                };
                let grown_ret = if ret_sz == 0 { 0int } else {
                    crate::memory::round32(ret_off + ret_sz)
                };
                let expansion = crate::gas_cost::mem_expansion(
                    vstd::math::max(grown_args, grown_ret),
                    f.memory@.len() as int,
                );
                let m1 = read_through(old(self).db.store, old(self).db.model(), target);
                let code1 = m1[target].2;
                let deleg = crate::utils::is_delegation_code(code1);
                let delegated = crate::utils::delegated_address(code1);
                let g7702: int = if deleg {
                    if old(self).accrued_substate.touched_accounts@.insert(target).contains(
                        delegated,
                    ) {
                        100
                    } else {
                        2600
                    }
                } else {
                    0
                };
                let cold = !old(self).accrued_substate.touched_accounts@.contains(target);
                let fixed = expansion + crate::gas_cost::call_access_cost(cold, fork);
                let available = f.gas_limit - f.gas_used - g7702 - fixed;
                let forwarded = vstd::math::min(
                    gas_w.as_nat() as int,
                    crate::gas_cost::l64(available),
                );
                &&& (deleg ==> child.code_view() == read_through(
                    old(self).db.store,
                    m1,
                    delegated,
                )[delegated].2)
                &&& (!deleg ==> child.code_view() == code1)
                &&& child.code_address@ == target
                &&& child.to@ == target
                &&& child.gas_limit == forwarded
                &&& (forall|a: Seq<u8>| #[trigger] old(self).db.model().contains_key(a)
                    ==> final(self).db.model().contains_key(a) && final(self).db.model()[a].0
                    == old(self).db.model()[a].0)
            }),
    {
        if self.env.config.fork.before(Fork::Byzantium) {
            return Err(VMError::InvalidOpcode);
        }
        let mut frame = self.take_frame();
        proof {
            assert(old(self).call_frames@[old(self).call_frames@.len() - 1].wf());
            crate::vm::lemma_frames_wf_drop(old(self).call_frames@);
        }
        let popped = match frame.stack.pop() {
            Ok(gas) => match frame.stack.pop() {
                Ok(code_w) => match frame.stack.pop() {
                    Ok(args_off) => match frame.stack.pop() {
                        Ok(args_size_w) => match frame.stack.pop() {
                            Ok(ret_off) => match frame.stack.pop() {
                                Ok(ret_size_w) => Ok((
                                    gas,
                                    code_w,
                                    args_off,
                                    args_size_w,
                                    ret_off,
                                    ret_size_w,
                                )),
                                Err(e) => Err(e),
                            },
                            Err(e) => Err(e),
                        },
                        Err(e) => Err(e),
                    },
                    Err(e) => Err(e),
                },
                Err(e) => Err(e),
            },
            Err(e) => Err(e),
        };
        let current_memory_size = frame.memory.len();
        let sender = frame.to;
        self.put_frame(frame);
        proof {
            assert(self.call_frames@.drop_last() =~= old(self).call_frames@.drop_last());
            assert(self.call_frames@.last().wf());
            crate::vm::lemma_frames_wf_push(
                old(self).call_frames@.drop_last(),
                self.call_frames@.last(),
            );
            crate::vm::lemma_frames_gas_update(old(self).call_frames@, self.call_frames@.last());
            assert(self.call_frames@ =~= old(self).call_frames@.update(
                old(self).call_frames@.len() - 1,
                self.call_frames@.last(),
            ));
            assert forall|i: int| 0 <= i < old(self).call_frames@.len()
                implies #[trigger] self.call_frames@[i].gas_limit == old(
                self,
            ).call_frames@[i].gas_limit by {
                if i < old(self).call_frames@.len() - 1 {
                    assert(self.call_frames@[i] == old(self).call_frames@.drop_last()[i]);
                }
            }
        }
        let (gas, code_w, args_off, args_size_w, ret_off, ret_size_w) = match popped {
            Ok(t) => t,
            Err(e) => {
                return Err(e);
            },
        };
        let code_address = word_to_address(&code_w);
        let args_size = match args_size_w.to_usize() {
            Some(s) => s,
            None => {
                return Err(VMError::VeryLargeNumber);
            },
        };
        let return_data_size = match ret_size_w.to_usize() {
            Some(s) => s,
            None => {
                return Err(VMError::VeryLargeNumber);
            },
        };
        let a = crate::memory::calculate_memory_size(&args_off, args_size)?;
        let b = crate::memory::calculate_memory_size(&ret_off, return_data_size)?;
        let new_memory_size = if a > b {
            a
        } else {
            b
        };
        let value = U256::zero();
        proof {
            crate::word::lemma_be_nat_zero(value@);
        }
        self.call_variant_tail(
            code_address,
            gas,
            value,
            sender,
            false,
            true,
            true,
            false,
            false,
            args_off,
            args_size,
            ret_off,
            return_data_size,
            current_memory_size,
            new_memory_size,
        )
    }

    /// Common behavior of CREATE and CREATE2 once the create cost is
    /// charged: reserve the subcall gas, compute the new address, run
    /// the bail-out checks, seed the account and push the child frame.
    #[verifier::rlimit(30)]
    pub fn generic_create(
        &mut self,
        value_in_wei_to_send: U256,
        code_offset_in_memory: U256,
        code_size_in_memory: usize,
        salt: Option<U256>,
    ) -> (r: Result<OpcodeResult, VMError>)
        requires
            old(self).wf(),
            old(self).has_frame(),
        ensures
            final(self).wf(),
            final(self).has_frame(),
            final(self).env == old(self).env,
            final(self).tx_kind == old(self).tx_kind,
            final(self).access_list == old(self).access_list,
            final(self).cache_backup == old(self).cache_backup,
            final(self).db.store == old(self).db.store,
            final(self).call_frames@.len() >= old(self).call_frames@.len(),
            old(self).cur().is_static ==> r == Err::<OpcodeResult, VMError>(
                VMError::OpcodeNotAllowedInStaticContext,
            ) && *final(self) == *old(self),
            !old(self).cur().is_static && code_size_in_memory > gas_cost::INIT_CODE_MAX_SIZE
                && crate::fork::fork_num(old(self).env.config.fork) >= crate::fork::fork_num(
                Fork::Shanghai,
            ) ==> r == Err::<OpcodeResult, VMError>(
                VMError::OutOfGas(OutOfGasError::ConsumedGasOverflow),
            ) && *final(self) == *old(self),
            r is Err ==> final(self).call_frames@.len() == old(self).call_frames@.len()
                && frames_gas(final(self).call_frames@) <= frames_gas(old(self).call_frames@)
                && stacks_unchanged(*old(self), *final(self)),
            r matches Ok(res) ==> (res matches OpcodeResult::Continue { pc_increment }
                && (pc_increment == 1 || pc_increment == 0)),
            r == Ok::<OpcodeResult, VMError>(OpcodeResult::Continue { pc_increment: 1 }) ==> {
                &&& final(self).call_frames@.len() == old(self).call_frames@.len()
                &&& frames_gas(final(self).call_frames@) <= frames_gas(old(self).call_frames@)
                &&& final(self).cur().stack@.len() == old(self).cur().stack@.len() + 1
                &&& final(self).cur().stack@.last().as_nat() == 0
                &&& ctx(final(self).cur()) == ctx(old(self).cur())
                &&& stacks_unchanged(*old(self), *final(self))
            },
            r == Ok::<OpcodeResult, VMError>(OpcodeResult::Continue { pc_increment: 0 }) ==> {
                let child = final(self).cur();
                &&& final(self).call_frames@.len() == old(self).call_frames@.len() + 1
                &&& frames_gas(final(self).call_frames@) == frames_gas(old(self).call_frames@)
                &&& child.msg_sender == old(self).cur().to
                &&& child.to == child.code_address
                &&& child.msg_value == value_in_wei_to_send
                &&& !child.is_static
                &&& child.gas_used == 0
                &&& child.depth == old(self).cur().depth + 1
                &&& child.is_create
                &&& child.calldata_view() == Seq::<u8>::empty()
                &&& final(self).return_data@.len() == old(self).return_data@.len() + 1
                &&& final(self).return_data@.last().is_create
                &&& final(self).return_data@.last().to == child.to
                &&& final(self).return_data@.last().msg_sender == old(self).cur().to
                &&& final(self).return_data@.last().value == value_in_wei_to_send
                &&& final(self).backups@.len() == old(self).backups@.len() + 1
                &&& cache_model(final(self).backups@.last().cache) == final(self).db.model()
                &&& final(self).backups@.last().substate.model()
                    == final(self).accrued_substate.model()
                &&& final(self).backups@.last().refunded_gas == final(self).env.refunded_gas
                &&& final(self).accrued_substate.created_accounts@
                    == old(self).accrued_substate.created_accounts@.insert(child.to@)
                &&& final(self).accrued_substate.touched_accounts@.contains(child.to@)
                &&& child.gas_limit == crate::gas_cost::l64(
                    old(self).cur().gas_limit - old(self).cur().gas_used,
                )
                &&& stacks_extended_by_child(*old(self), *final(self))
            },
            ({
                let f = old(self).cur();
                let fork = old(self).env.config.fork;
                let deployer = f.to;
                let reserved = crate::gas_cost::l64(f.gas_limit - f.gas_used);
                let m1 = read_through(old(self).db.store, old(self).db.model(), deployer@);
                let dep_bal = m1[deployer@].0;
                let dep_nonce = m1[deployer@].1;
                let off = code_offset_in_memory.as_nat() as int;
                let init_code: Seq<u8> = if code_size_in_memory == 0 {
                    Seq::<u8>::empty()
                } else {
                    crate::memory::expand_view(
                        f.memory@,
                        crate::memory::round32(off + code_size_in_memory),
                    ).subrange(off, off + code_size_in_memory)
                };
                let new_addr: Seq<u8> = match salt {
                    Option::Some(s) => crate::hashing::keccak_of(
                        crate::utils::create2_preimage(
                            deployer@,
                            s@,
                            crate::hashing::keccak_of(init_code),
                        ),
                    ).skip(12),
                    Option::None => crate::hashing::keccak_of(
                        crate::utils::rlp_address_nonce(deployer@, dep_nonce),
                    ).skip(12),
                };
                let m2 = read_through(old(self).db.store, m1, new_addr);
                let occupied = m2[new_addr].1 != 0 || m2[new_addr].2.len() != 0;
                let args_ok = code_size_in_memory == 0 || off + code_size_in_memory + 31
                    <= usize::MAX;
                let room = f.stack@.len() < 1024;
                let feasible = !f.is_static && (code_size_in_memory
                    <= crate::gas_cost::INIT_CODE_MAX_SIZE || crate::fork::fork_num(fork)
                    < crate::fork::fork_num(Fork::Shanghai)) && args_ok && room;
                let bail = dep_bal < value_in_wei_to_send.as_nat() || f.depth == 1024
                    || dep_nonce == u64::MAX;
                let seed_nonce: u64 = if crate::fork::fork_num(fork) < crate::fork::fork_num(
                    Fork::SpuriousDragon,
                ) {
                    0
                } else {
                    1
                };
                let seeded = m2.insert(
                    new_addr,
                    (
                        (m2[new_addr].0 + value_in_wei_to_send.as_nat()) as nat,
                        seed_nonce,
                        Seq::<u8>::empty(),
                        Map::<Seq<u8>, crate::account::StorageSlot>::empty(),
                    ),
                );
                &&& (feasible && bail ==> {
                    &&& r == Ok::<OpcodeResult, VMError>(OpcodeResult::Continue { pc_increment: 1 })
                    &&& final(self).cur().stack@ == f.stack@.push(final(self).cur().stack@.last())
                    &&& final(self).cur().stack@.last().as_nat() == 0
                    &&& final(self).cur().gas_used == f.gas_used
                    &&& final(self).db.model() == m1
                })
                &&& (feasible && !bail && occupied ==> {
                    &&& r == Ok::<OpcodeResult, VMError>(OpcodeResult::Continue { pc_increment: 1 })
                    &&& final(self).cur().stack@ == f.stack@.push(final(self).cur().stack@.last())
                    &&& final(self).cur().stack@.last().as_nat() == 0
                    &&& final(self).cur().gas_used == f.gas_used + reserved
                    &&& final(self).db.model() == m2.insert(
                        deployer@,
                        (
                            m2[deployer@].0,
                            (m2[deployer@].1 + 1) as u64,
                            m2[deployer@].2,
                            m2[deployer@].3,
                        ),
                    )
                })
                &&& (feasible && !bail && !occupied && m2[new_addr].0
                    + value_in_wei_to_send.as_nat() < crate::word::pow256(32) ==> {
                    &&& r == Ok::<OpcodeResult, VMError>(OpcodeResult::Continue { pc_increment: 0 })
                    &&& final(self).cur().code_view() == init_code
                    &&& final(self).cur().to@ == new_addr
                    &&& final(self).db.model() == seeded.insert(
                        deployer@,
                        (
                            (seeded[deployer@].0 - value_in_wei_to_send.as_nat()) as nat,
                            (seeded[deployer@].1 + 1) as u64,
                            seeded[deployer@].2,
                            seeded[deployer@].3,
                        ),
                    )
                })
            }),
    {
        let fork = self.env.config.fork;
        if self.current_call_frame()?.is_static {
            return Err(VMError::OpcodeNotAllowedInStaticContext);
        }
        if code_size_in_memory > gas_cost::INIT_CODE_MAX_SIZE && fork.at_least(Fork::Shanghai) {
            return Err(VMError::OutOfGas(OutOfGasError::ConsumedGasOverflow));
        }
        proof {
            assert(old(self).call_frames@[old(self).call_frames@.len() - 1].wf());
        }
        let cur_ref = self.current_call_frame()?;
        let gas_remaining = match cur_ref.gas_limit.checked_sub(cur_ref.gas_used) {
            Some(g) => g,
            None => {
                return Err(VMError::Internal(InternalError::GasOverflow));
            },
        };
        let max_message_call_gas = gas_cost::max_message_call_gas(gas_remaining);
        self.charge_current(max_message_call_gas);
        let ghost charged = *self;
        let mut frame = self.take_frame();
        proof {
            assert(charged.call_frames@[charged.call_frames@.len() - 1].wf());
            crate::vm::lemma_frames_wf_drop(charged.call_frames@);
        }
        frame.sub_return_data = bytes_new();
        let deployer_address = frame.to;
        let code_load = frame.memory.load_range(&code_offset_in_memory, code_size_in_memory);
        self.put_frame(frame);
        proof {
            assert(self.call_frames@.drop_last() =~= old(self).call_frames@.drop_last());
            assert(self.call_frames@.last().wf());
            crate::vm::lemma_frames_wf_push(
                charged.call_frames@.drop_last(),
                self.call_frames@.last(),
            );
            crate::vm::lemma_frames_gas_update(charged.call_frames@, self.call_frames@.last());
            assert(self.call_frames@ =~= charged.call_frames@.update(
                charged.call_frames@.len() - 1,
                self.call_frames@.last(),
            ));
        }
        let code = match code_load {
            Ok(c) => c,
            Err(e) => {
                return Err(e);
            },
        };
        let deployer_account_info = access_account(
            &mut self.db,
            &mut self.accrued_substate,
            deployer_address,
        ).0;
        let new_address = match salt {
            Some(s) => crate::utils::calculate_create2_address(deployer_address, &code, &s),
            None => crate::utils::calculate_create_address(
                deployer_address,
                deployer_account_info.nonce,
            ),
        };
        let _ = self.accrued_substate.touched_accounts.insert(new_address);
        let cur_depth = self.current_call_frame()?.depth;
        let new_depth = match cur_depth.checked_add(1) {
            Some(d) => d,
            None => {
                return Err(VMError::Internal(InternalError::ArithmeticOperationOverflow));
            },
        };
        if deployer_account_info.balance.lt(&value_in_wei_to_send) || new_depth > 1024
            || deployer_account_info.nonce == u64::MAX {
            let ghost before_bail = *self;
            let mut frame = self.take_frame();
            proof {
                assert(before_bail.call_frames@[before_bail.call_frames@.len() - 1].wf());
                crate::vm::lemma_frames_wf_drop(before_bail.call_frames@);
            }
            let refunded = match frame.gas_used.checked_sub(max_message_call_gas) {
                Some(g) => {
                    frame.gas_used = g;
                    Ok(())
                },
                None => Err(VMError::Internal(InternalError::GasOverflow)),
            };
            let pushed = match refunded {
                Ok(()) => {
                    let zero = revert_for_call();
                    frame.stack.push(zero)
                },
                Err(e) => Err(e),
            };
            self.put_frame(frame);
            proof {
                assert(self.call_frames@.drop_last() =~= old(self).call_frames@.drop_last());
                assert(self.call_frames@.last().wf());
                crate::vm::lemma_frames_wf_push(
                    before_bail.call_frames@.drop_last(),
                    self.call_frames@.last(),
                );
                crate::vm::lemma_frames_gas_update(
                    before_bail.call_frames@,
                    self.call_frames@.last(),
                );
                assert(self.call_frames@ =~= before_bail.call_frames@.update(
                    before_bail.call_frames@.len() - 1,
                    self.call_frames@.last(),
                ));
            }
            return match pushed {
                Ok(()) => Ok(OpcodeResult::Continue { pc_increment: 1 }),
                Err(e) => Err(e),
            };
        }
        let new_account = self.db.get_account(&new_address);
        if new_account.has_code_or_nonce() {
            self.db.increment_account_nonce(&deployer_address)?;
            let ghost before_push = *self;
            let mut frame = self.take_frame();
            proof {
                assert(before_push.call_frames@[before_push.call_frames@.len() - 1].wf());
                crate::vm::lemma_frames_wf_drop(before_push.call_frames@);
            }
            let zero = revert_for_call();
            let pushed = frame.stack.push(zero);
            self.put_frame(frame);
            proof {
                assert(self.call_frames@.drop_last() =~= old(self).call_frames@.drop_last());
                assert(self.call_frames@.last().wf());
                crate::vm::lemma_frames_wf_push(
                    before_push.call_frames@.drop_last(),
                    self.call_frames@.last(),
                );
                crate::vm::lemma_frames_gas_update(
                    before_push.call_frames@,
                    self.call_frames@.last(),
                );
                assert(self.call_frames@ =~= before_push.call_frames@.update(
                    before_push.call_frames@.len() - 1,
                    self.call_frames@.last(),
                ));
            }
            return match pushed {
                Ok(()) => Ok(OpcodeResult::Continue { pc_increment: 1 }),
                Err(e) => Err(e),
            };
        }
        let new_balance = match value_in_wei_to_send.checked_add(&new_account.info.balance) {
            Some(b) => b,
            None => {
                return Err(VMError::BalanceOverflow);
            },
        };
        let new_nonce: u64 = if fork.before(Fork::SpuriousDragon) {
            0
        } else {
            1
        };
        let created = crate::account::Account::new(
            new_balance,
            bytes_new(),
            new_nonce,
            crate::kv::KvMap::new(),
        );
        self.db.insert_account(&new_address, created);
        self.db.increment_account_nonce(&deployer_address)?;
        self.db.decrease_account_balance(&deployer_address, &value_in_wei_to_send)?;
        let code_bytes = bytes_from_vec(code);
        let new_call_frame = CallFrame::new(
            deployer_address,
            new_address,
            new_address,
            code_bytes,
            value_in_wei_to_send,
            bytes_new(),
            false,
            max_message_call_gas,
            0,
            new_depth,
            true,
        );
        let ghost before_child = *self;
        self.put_frame(new_call_frame);
        proof {
            crate::vm::lemma_frames_wf_push(before_child.call_frames@, self.call_frames@.last());
            crate::vm::lemma_frames_gas_push(before_child.call_frames@, self.call_frames@.last());
            assert(self.call_frames@.drop_last() =~= before_child.call_frames@);
        }
        let _ = self.accrued_substate.created_accounts.insert(new_address);
        self.return_data.push(
            RetData {
                is_create: true,
                ret_offset: U256::zero(),
                ret_size: 0,
                should_transfer_value: true,
                to: new_address,
                msg_sender: deployer_address,
                value: value_in_wei_to_send,
                max_message_call_gas,
            },
        );
        let backup = self.snapshot();
        let ghost before_backup = *self;
        self.backups.push(backup);
        proof {
            assert(self.backups@.drop_last() =~= before_backup.backups@);
            assert(self.return_data@.drop_last() =~= old(self).return_data@);
            assert(crate::vm::backups_wf(self.backups@)) by {
                assert(forall|i: int| 0 <= i < self.backups@.len() - 1
                    ==> self.backups@[i] == before_backup.backups@[i]);
                assert(self.backups@[self.backups@.len() - 1].wf());
            }
        }
        Ok(OpcodeResult::Continue { pc_increment: 0 })
    }

    // CREATE operation
    pub fn op_create(&mut self) -> (r: Result<OpcodeResult, VMError>)
        requires
            old(self).wf(),
            old(self).has_frame(),
        ensures
            final(self).wf(),
            final(self).has_frame(),
            final(self).env == old(self).env,
            final(self).tx_kind == old(self).tx_kind,
            final(self).access_list == old(self).access_list,
            final(self).cache_backup == old(self).cache_backup,
            final(self).db.store == old(self).db.store,
            final(self).call_frames@.len() >= old(self).call_frames@.len(),
            r is Ok ==> final(self).fuel() < old(self).fuel(),
            r is Err ==> final(self).call_frames@.len() == old(self).call_frames@.len()
                && final(self).fuel() <= old(self).fuel(),
            r is Err ==> stacks_unchanged(*old(self), *final(self)),
            r matches Ok(res) ==> ((res == (OpcodeResult::Continue { pc_increment: 0 })
                ==> stacks_extended_by_child(*old(self), *final(self))) && (res != (
            OpcodeResult::Continue { pc_increment: 0 }) ==> stacks_unchanged(
                *old(self),
                *final(self),
            ))),
            old(self).cur().stack@.len() < 3 ==> r is Err,
            r == Ok::<OpcodeResult, VMError>(OpcodeResult::Continue { pc_increment: 0 }) ==> {
                let child = final(self).cur();
                &&& final(self).call_frames@.len() == old(self).call_frames@.len() + 1
                &&& child.is_create
                &&& child.msg_sender == old(self).cur().to
                &&& child.gas_used == 0
                &&& child.depth == old(self).cur().depth + 1
            },
    {
        let mut frame = self.take_frame();
        proof {
            assert(old(self).call_frames@[old(self).call_frames@.len() - 1].wf());
            crate::vm::lemma_frames_wf_drop(old(self).call_frames@);
        }
        let popped = match frame.stack.pop() {
            Ok(value) => match frame.stack.pop() {
                Ok(off) => match frame.stack.pop() {
                    Ok(size_w) => Ok((value, off, size_w)),
                    Err(e) => Err(e),
                },
                Err(e) => Err(e),
            },
            Err(e) => Err(e),
        };
        let current_memory_size = frame.memory.len();
        self.put_frame(frame);
        proof {
            assert(self.call_frames@.drop_last() =~= old(self).call_frames@.drop_last());
            assert(self.call_frames@.last().wf());
            crate::vm::lemma_frames_wf_push(
                old(self).call_frames@.drop_last(),
                self.call_frames@.last(),
            );
            crate::vm::lemma_frames_gas_update(old(self).call_frames@, self.call_frames@.last());
            assert(self.call_frames@ =~= old(self).call_frames@.update(
                old(self).call_frames@.len() - 1,
                self.call_frames@.last(),
            ));
            assert forall|i: int| 0 <= i < old(self).call_frames@.len()
                implies #[trigger] self.call_frames@[i].gas_limit == old(
                self,
            ).call_frames@[i].gas_limit by {
                if i < old(self).call_frames@.len() - 1 {
                    assert(self.call_frames@[i] == old(self).call_frames@.drop_last()[i]);
                }
            }
        }
        let (value_in_wei_to_send, code_offset_in_memory, size_w) = match popped {
            Ok(t) => t,
            Err(e) => {
                return Err(e);
            },
        };
        let code_size_in_memory = match size_w.to_usize() {
            Some(s) => s,
            None => {
                return Err(VMError::VeryLargeNumber);
            },
        };
        let fork = self.env.config.fork;
        let new_size = crate::memory::calculate_memory_size(
            &code_offset_in_memory,
            code_size_in_memory,
        )?;
        let cost = gas_cost::create_cost(
            new_size,
            current_memory_size,
            code_size_in_memory,
            false,
            fork,
        )?;
        let ghost before_charge = *self;
        let mut frame = self.take_frame();
        proof {
            assert(before_charge.call_frames@[before_charge.call_frames@.len() - 1].wf());
            crate::vm::lemma_frames_wf_drop(before_charge.call_frames@);
        }
        let charged = frame.increase_consumed_gas(cost);
        self.put_frame(frame);
        proof {
            assert(self.call_frames@.drop_last() =~= old(self).call_frames@.drop_last());
            assert(self.call_frames@.last().wf());
            crate::vm::lemma_frames_wf_push(
                before_charge.call_frames@.drop_last(),
                self.call_frames@.last(),
            );
            crate::vm::lemma_frames_gas_update(
                before_charge.call_frames@,
                self.call_frames@.last(),
            );
            assert(self.call_frames@ =~= before_charge.call_frames@.update(
                before_charge.call_frames@.len() - 1,
                self.call_frames@.last(),
            ));
        }
        if let Err(e) = charged {
            return Err(e);
        }
        let ghost after_charge = *self;
        let result = self.generic_create(
            value_in_wei_to_send,
            code_offset_in_memory,
            code_size_in_memory,
            None,
        );
        proof {
            assert(frames_gas(after_charge.call_frames@) <= frames_gas(old(self).call_frames@)
                - 32000);
            crate::vm::lemma_frames_gas_nonneg(self.call_frames@);
        }
        result
    }

    // CREATE2 operation
    pub fn op_create2(&mut self) -> (r: Result<OpcodeResult, VMError>)
        requires
            old(self).wf(),
            old(self).has_frame(),
        ensures
            final(self).wf(),
            final(self).has_frame(),
            final(self).env == old(self).env,
            final(self).tx_kind == old(self).tx_kind,
            final(self).access_list == old(self).access_list,
            final(self).cache_backup == old(self).cache_backup,
            final(self).db.store == old(self).db.store,
            final(self).call_frames@.len() >= old(self).call_frames@.len(),
            r is Ok ==> final(self).fuel() < old(self).fuel(),
            r is Err ==> final(self).call_frames@.len() == old(self).call_frames@.len()
                && final(self).fuel() <= old(self).fuel(),
            r is Err ==> stacks_unchanged(*old(self), *final(self)),
            r matches Ok(res) ==> ((res == (OpcodeResult::Continue { pc_increment: 0 })
                ==> stacks_extended_by_child(*old(self), *final(self))) && (res != (
            OpcodeResult::Continue { pc_increment: 0 }) ==> stacks_unchanged(
                *old(self),
                *final(self),
            ))),
            crate::fork::fork_num(old(self).env.config.fork) < crate::fork::fork_num(
                Fork::Constantinople,
            ) ==> r == Err::<OpcodeResult, VMError>(VMError::InvalidOpcode),
            old(self).cur().stack@.len() < 4 && crate::fork::fork_num(old(self).env.config.fork)
                >= crate::fork::fork_num(Fork::Constantinople) ==> r is Err,
            r == Ok::<OpcodeResult, VMError>(OpcodeResult::Continue { pc_increment: 0 }) ==> {
                let child = final(self).cur();
                &&& final(self).call_frames@.len() == old(self).call_frames@.len() + 1
                &&& child.is_create
                &&& child.msg_sender == old(self).cur().to
                &&& child.gas_used == 0
                &&& child.depth == old(self).cur().depth + 1
            },
    {
        if self.env.config.fork.before(Fork::Constantinople) {
            return Err(VMError::InvalidOpcode);
        }
        let mut frame = self.take_frame();
        proof {
            assert(old(self).call_frames@[old(self).call_frames@.len() - 1].wf());
            crate::vm::lemma_frames_wf_drop(old(self).call_frames@);
        }
        let popped = match frame.stack.pop() {
            Ok(value) => match frame.stack.pop() {
                Ok(off) => match frame.stack.pop() {
                    Ok(size_w) => match frame.stack.pop() {
                        Ok(salt) => Ok((value, off, size_w, salt)),
                        Err(e) => Err(e),
                    },
                    Err(e) => Err(e),
                },
                Err(e) => Err(e),
            },
            Err(e) => Err(e),
        };
        let current_memory_size = frame.memory.len();
        self.put_frame(frame);
        proof {
            assert(self.call_frames@.drop_last() =~= old(self).call_frames@.drop_last());
            assert(self.call_frames@.last().wf());
            crate::vm::lemma_frames_wf_push(
                old(self).call_frames@.drop_last(),
                self.call_frames@.last(),
            );
            crate::vm::lemma_frames_gas_update(old(self).call_frames@, self.call_frames@.last());
            assert(self.call_frames@ =~= old(self).call_frames@.update(
                old(self).call_frames@.len() - 1,
                self.call_frames@.last(),
            ));
            assert forall|i: int| 0 <= i < old(self).call_frames@.len()
                implies #[trigger] self.call_frames@[i].gas_limit == old(
                self,
            ).call_frames@[i].gas_limit by {
                if i < old(self).call_frames@.len() - 1 {
                    assert(self.call_frames@[i] == old(self).call_frames@.drop_last()[i]);
                }
            }
        }
        let (value_in_wei_to_send, code_offset_in_memory, size_w, salt) = match popped {
            Ok(t) => t,
            Err(e) => {
                return Err(e);
            },
        };
        let code_size_in_memory = match size_w.to_usize() {
            Some(s) => s,
            None => {
                return Err(VMError::VeryLargeNumber);
            },
        };
        let fork = self.env.config.fork;
        let new_size = crate::memory::calculate_memory_size(
            &code_offset_in_memory,
            code_size_in_memory,
        )?;
        let cost = gas_cost::create_cost(
            new_size,
            current_memory_size,
            code_size_in_memory,
            true,
            fork,
        )?;
        let ghost before_charge = *self;
        let mut frame = self.take_frame();
        proof {
            assert(before_charge.call_frames@[before_charge.call_frames@.len() - 1].wf());
            crate::vm::lemma_frames_wf_drop(before_charge.call_frames@);
        }
        let charged = frame.increase_consumed_gas(cost);
        self.put_frame(frame);
        proof {
            assert(self.call_frames@.drop_last() =~= old(self).call_frames@.drop_last());
            assert(self.call_frames@.last().wf());
            crate::vm::lemma_frames_wf_push(
                before_charge.call_frames@.drop_last(),
                self.call_frames@.last(),
            );
            crate::vm::lemma_frames_gas_update(
                before_charge.call_frames@,
                self.call_frames@.last(),
            );
            assert(self.call_frames@ =~= before_charge.call_frames@.update(
                before_charge.call_frames@.len() - 1,
                self.call_frames@.last(),
            ));
        }
        if let Err(e) = charged {
            return Err(e);
        }
        let ghost after_charge = *self;
        let result = self.generic_create(
            value_in_wei_to_send,
            code_offset_in_memory,
            code_size_in_memory,
            Some(salt),
        );
        proof {
            assert(frames_gas(after_charge.call_frames@) <= frames_gas(old(self).call_frames@)
                - 32000);
            crate::vm::lemma_frames_gas_nonneg(self.call_frames@);
        }
        result
    }

    // SELFDESTRUCT operation
    #[verifier::rlimit(30)]
    pub fn op_selfdestruct(&mut self) -> (r: Result<OpcodeResult, VMError>)
        requires
            old(self).wf(),
            old(self).has_frame(),
        ensures
            final(self).wf(),
            final(self).has_frame(),
            final(self).tx_kind == old(self).tx_kind,
            final(self).access_list == old(self).access_list,
            final(self).cache_backup == old(self).cache_backup,
            final(self).db.store == old(self).db.store,
            final(self).call_frames@.len() == old(self).call_frames@.len(),
            final(self).call_frames@.drop_last() == old(self).call_frames@.drop_last(),
            ctx(final(self).cur()) == ctx(old(self).cur()),
            final(self).cur().gas_used >= old(self).cur().gas_used,
            final(self).accrued_substate.created_accounts == old(self).accrued_substate.created_accounts,
            final(self).accrued_substate.touched_storage_slots == old(self).accrued_substate.touched_storage_slots,
            final(self).return_data == old(self).return_data,
            final(self).backups == old(self).backups,
            final(self).env.config == old(self).env.config,
            final(self).env.gas_limit == old(self).env.gas_limit,
            final(self).env.gas_price == old(self).env.gas_price,
            old(self).cur().is_static ==> r == Err::<OpcodeResult, VMError>(
                VMError::OpcodeNotAllowedInStaticContext,
            ) && *final(self) == *old(self),
            !old(self).cur().is_static && old(self).cur().stack@.len() == 0 ==> r == Err::<
                OpcodeResult,
                VMError,
            >(VMError::StackUnderflow),
            r matches Ok(res) ==> res == OpcodeResult::Halt,
            r is Ok ==> final(self).accrued_substate.touched_accounts@ == old(
                self,
            ).accrued_substate.touched_accounts@.insert(
                old(self).cur().stack@.last()@.skip(12),
            ).insert(old(self).cur().to@),
            r is Ok ==> ({
                let fork = old(self).env.config.fork;
                let to = old(self).cur().to;
                &&& (crate::fork::fork_num(fork) >= crate::fork::fork_num(Fork::Cancun) ==> {
                    &&& (old(self).accrued_substate.created_accounts@.contains(to@)
                        ==> final(self).accrued_substate.selfdestruct_set@ == old(
                        self,
                    ).accrued_substate.selfdestruct_set@.insert(to@))
                    &&& (!old(self).accrued_substate.created_accounts@.contains(to@)
                        ==> final(self).accrued_substate.selfdestruct_set@ == old(
                        self,
                    ).accrued_substate.selfdestruct_set@)
                    &&& final(self).env.refunded_gas == old(self).env.refunded_gas
                })
                &&& (crate::fork::fork_num(fork) < crate::fork::fork_num(Fork::Cancun) ==> {
                    &&& final(self).accrued_substate.selfdestruct_set@ == old(
                        self,
                    ).accrued_substate.selfdestruct_set@.insert(to@)
                    &&& (crate::fork::fork_num(fork) < crate::fork::fork_num(Fork::London)
                        && !old(self).accrued_substate.selfdestruct_set@.contains(to@)
                        ==> final(self).env.refunded_gas == old(self).env.refunded_gas
                            + gas_cost::SELFDESTRUCT_REFUND)
                    &&& (crate::fork::fork_num(fork) >= crate::fork::fork_num(Fork::London)
                        || old(self).accrued_substate.selfdestruct_set@.contains(to@)
                        ==> final(self).env.refunded_gas == old(self).env.refunded_gas)
                })
            }),
            ({
                let f = old(self).cur();
                let fork = old(self).env.config.fork;
                let to = f.to;
                let target = f.stack@.last()@.skip(12);
                let m1 = read_through(old(self).db.store, old(self).db.model(), target);
                let m2 = read_through(old(self).db.store, m1, to@);
                let moved = m2[to@].0;
                let credited = m2.insert(
                    target,
                    ((m2[target].0 + moved) as nat, m2[target].1, m2[target].2, m2[target].3),
                );
                let drained = credited.insert(
                    to@,
                    (
                        (credited[to@].0 - moved) as nat,
                        credited[to@].1,
                        credited[to@].2,
                        credited[to@].3,
                    ),
                );
                let cold = !old(self).accrued_substate.touched_accounts@.contains(target);
                let existed = old(self).db.model().contains_key(target)
                    || old(self).db.store.has_account(target);
                let empty_t = m1[target].0 == 0 && m1[target].1 == 0 && m1[target].2.len() == 0;
                let dead = if crate::fork::fork_num(fork) >= crate::fork::fork_num(
                    Fork::SpuriousDragon,
                ) {
                    empty_t
                } else {
                    !existed
                };
                let charge = crate::gas_cost::selfdestruct_cost(cold, dead, moved != 0, fork);
                let fits = m2[target].0 + moved < crate::word::pow256(32);
                &&& (!f.is_static && f.stack@.len() >= 1 && f.gas_used + charge <= f.gas_limit
                    && fits && (crate::fork::fork_num(fork) >= crate::fork::fork_num(Fork::London)
                    || crate::fork::fork_num(fork) >= crate::fork::fork_num(Fork::Cancun)
                    || old(self).accrued_substate.selfdestruct_set@.contains(to@)
                    || old(self).env.refunded_gas + gas_cost::SELFDESTRUCT_REFUND <= u64::MAX)
                    ==> r == Ok::<OpcodeResult, VMError>(OpcodeResult::Halt))
                &&& (r is Ok ==> final(self).cur().gas_used == f.gas_used + charge)
                &&& (r is Ok && crate::fork::fork_num(fork) >= crate::fork::fork_num(Fork::Cancun)
                    ==> {
                    &&& (!old(self).accrued_substate.created_accounts@.contains(to@)
                        ==> final(self).db.model() == drained
                            && final(self).db.model().contains_key(to@))
                    &&& (old(self).accrued_substate.created_accounts@.contains(to@)
                        ==> final(self).db.model() == drained.insert(
                        to@,
                        (0, drained[to@].1, drained[to@].2, drained[to@].3),
                    ))
                })
                &&& (r is Ok && crate::fork::fork_num(fork) < crate::fork::fork_num(Fork::Cancun)
                    ==> final(self).db.model() == credited.insert(
                    to@,
                    (0, credited[to@].1, credited[to@].2, credited[to@].3),
                ))
            }),
    {
        if self.current_call_frame()?.is_static {
            return Err(VMError::OpcodeNotAllowedInStaticContext);
        }
        let mut frame = self.take_frame();
        proof {
            assert(old(self).call_frames@[old(self).call_frames@.len() - 1].wf());
            crate::vm::lemma_frames_wf_drop(old(self).call_frames@);
        }
        let popped = frame.stack.pop();
        let to = frame.to;
        self.put_frame(frame);
        proof {
            assert(self.call_frames@.drop_last() =~= old(self).call_frames@.drop_last());
            assert(self.call_frames@.last().wf());
            crate::vm::lemma_frames_wf_push(
                old(self).call_frames@.drop_last(),
                self.call_frames@.last(),
            );
            assert(self.call_frames@ =~= old(self).call_frames@.drop_last().push(
                self.call_frames@.last(),
            ));
        }
        let target_address = match popped {
            Ok(w) => word_to_address(&w),
            Err(e) => {
                return Err(e);
            },
        };
        let fork = self.env.config.fork;
        let target_existed = self.db.account_exists(&target_address);
        let (target_account_info, target_account_is_cold) = access_account(
            &mut self.db,
            &mut self.accrued_substate,
            target_address,
        );
        let (current_account_info, _current_account_is_cold) = access_account(
            &mut self.db,
            &mut self.accrued_substate,
            to,
        );
        let balance_to_transfer = current_account_info.balance;
        let account_is_empty = if fork.at_least(Fork::SpuriousDragon) {
            target_account_info.is_empty()
        } else {
            !target_existed
        };
        let cost = gas_cost::selfdestruct(
            target_account_is_cold,
            account_is_empty,
            &balance_to_transfer,
            fork,
        )?;
        let ghost mid = *self;
        let mut frame = self.take_frame();
        proof {
            assert(mid.call_frames@[mid.call_frames@.len() - 1].wf());
            crate::vm::lemma_frames_wf_drop(mid.call_frames@);
        }
        let charged = frame.increase_consumed_gas(cost);
        self.put_frame(frame);
        proof {
            assert(self.call_frames@.drop_last() =~= old(self).call_frames@.drop_last());
            assert(self.call_frames@.last().wf());
            crate::vm::lemma_frames_wf_push(
                mid.call_frames@.drop_last(),
                self.call_frames@.last(),
            );
            assert(self.call_frames@ =~= mid.call_frames@.drop_last().push(
                self.call_frames@.last(),
            ));
        }
        if let Err(e) = charged {
            return Err(e);
        }
        if fork.at_least(Fork::Cancun) {
            self.db.increase_account_balance(&target_address, &balance_to_transfer)?;
            self.db.decrease_account_balance(&to, &balance_to_transfer)?;
            if self.accrued_substate.created_accounts.contains(&to) {
                let zero = U256::zero();
                self.db.set_account_balance(&to, zero);
                let _ = self.accrued_substate.selfdestruct_set.insert(to);
                proof {
                    assert(self.accrued_substate.selfdestruct_set@ =~= old(
                        self,
                    ).accrued_substate.selfdestruct_set@.insert(to@));
                }
            } else {
                proof {
                    assert(self.accrued_substate.selfdestruct_set@ =~= old(
                        self,
                    ).accrued_substate.selfdestruct_set@);
                }
            }
        } else {
            self.db.increase_account_balance(&target_address, &balance_to_transfer)?;
            let zero = U256::zero();
            self.db.set_account_balance(&to, zero);
            if fork.before(Fork::London) && !self.accrued_substate.selfdestruct_set.contains(&to) {
                self.env.refunded_gas = match self.env.refunded_gas.checked_add(
                    gas_cost::SELFDESTRUCT_REFUND,
                ) {
                    Some(g) => g,
                    None => {
                        return Err(VMError::GasRefundsOverflow);
                    },
                };
            }
            let _ = self.accrued_substate.selfdestruct_set.insert(to);
        }
        if target_existed && target_account_info.is_empty() {
            let _ = self.accrued_substate.touched_accounts.insert(target_address);
        }
        Ok(OpcodeResult::Halt)
    }

    /// After a frame finished, route its report: the root frame is put
    /// back and `false` returned; any other frame's pending `RetData`
    /// decides between the call and the create return paths.
    pub fn handle_return(&mut self, call_frame: CallFrame, tx_report: &ExecutionReport) -> (r:
        Result<bool, VMError>)
        requires
            old(self).wf(),
            call_frame.wf(),
        ensures
            final(self).wf(),
            final(self).db.store == old(self).db.store,
            final(self).tx_kind == old(self).tx_kind,
            final(self).access_list == old(self).access_list,
            final(self).cache_backup == old(self).cache_backup,
            final(self).env == old(self).env,
            r == Ok::<bool, VMError>(false) ==> call_frame.depth == 0,
            call_frame.depth == 0 ==> r == Ok::<bool, VMError>(false)
                && final(self).call_frames@ == old(self).call_frames@.push(call_frame)
                && final(self).env == old(self).env
                && final(self).db == old(self).db
                && final(self).accrued_substate == old(self).accrued_substate
                && final(self).backups == old(self).backups
                && final(self).return_data == old(self).return_data,
            r == Ok::<bool, VMError>(true) ==> {
                &&& call_frame.depth > 0
                &&& old(self).return_data@.len() > 0
                &&& final(self).return_data@ == old(self).return_data@.drop_last()
                &&& final(self).call_frames@.len() == old(self).call_frames@.len()
                &&& final(self).backups@ == old(self).backups@
                &&& (forall|i: int| 0 <= i < old(self).call_frames@.len()
                    ==> #[trigger] final(self).call_frames@[i].gas_limit == old(
                    self,
                ).call_frames@[i].gas_limit)
                &&& old(self).call_frames@.len() > 0
                &&& frames_gas(final(self).call_frames@) <= frames_gas(old(self).call_frames@)
                    + vstd::math::max(
                    0,
                    vstd::math::max(
                        call_frame.gas_limit as int,
                        old(self).return_data@.last().max_message_call_gas as int,
                    ) - tx_report.gas_used,
                )
            },
            r is Err ==> final(self).call_frames@.len() == old(self).call_frames@.len()
                && (call_frame.depth == 0 ==> frames_gas(final(self).call_frames@) <= frames_gas(
                    old(self).call_frames@,
                ))
                && (call_frame.depth > 0 && old(self).return_data@.len() > 0
                    ==> frames_gas(final(self).call_frames@) <= frames_gas(old(self).call_frames@)
                        + vstd::math::max(
                        0,
                        vstd::math::max(
                            call_frame.gas_limit as int,
                            old(self).return_data@.last().max_message_call_gas as int,
                        ) - tx_report.gas_used,
                    ))
                && (call_frame.depth > 0 && old(self).return_data@.len() == 0
                    ==> frames_gas(final(self).call_frames@) <= frames_gas(
                        old(self).call_frames@,
                    )),
            call_frame.depth > 0 && old(self).return_data@.len() == 0 ==> r == Err::<
                bool,
                VMError,
            >(VMError::Internal(InternalError::CouldNotPopCallframe)),
    {
        if call_frame.depth == 0 {
            self.put_frame(call_frame);
            return Ok(false);
        }
        let retdata = match self.return_data.pop() {
            Some(rd) => rd,
            None => {
                return Err(VMError::Internal(InternalError::CouldNotPopCallframe));
            },
        };
        if retdata.is_create {
            self.handle_return_create(tx_report, retdata, &call_frame)?;
        } else {
            self.handle_return_call(&call_frame, tx_report, retdata)?;
        }
        Ok(true)
    }

    /// Give the parent back the child's unspent gas, copy the child's
    /// output into the parent's memory window and its return-data
    /// buffer, undo the value transfer on revert, and push 1 or 0.
    pub fn handle_return_call(
        &mut self,
        call_frame: &CallFrame,
        tx_report: &ExecutionReport,
        retdata: RetData,
    ) -> (r: Result<(), VMError>)
        requires
            old(self).wf(),
        ensures
            final(self).wf(),
            final(self).db.store == old(self).db.store,
            final(self).tx_kind == old(self).tx_kind,
            final(self).access_list == old(self).access_list,
            final(self).cache_backup == old(self).cache_backup,
            final(self).return_data == old(self).return_data,
            final(self).backups == old(self).backups,
            final(self).env == old(self).env,
            final(self).call_frames@.len() == old(self).call_frames@.len(),
            forall|i: int| 0 <= i < old(self).call_frames@.len()
                ==> #[trigger] final(self).call_frames@[i].gas_limit == old(
                self,
            ).call_frames@[i].gas_limit,
            r is Ok ==> old(self).call_frames@.len() > 0
                && tx_report.gas_used <= call_frame.gas_limit
                && final(self).cur().gas_used == old(self).cur().gas_used - (call_frame.gas_limit
                    - tx_report.gas_used)
                && frames_gas(final(self).call_frames@) == frames_gas(old(self).call_frames@)
                    + (call_frame.gas_limit - tx_report.gas_used)
                && final(self).cur().sub_return_data_view() == bytes_view(tx_report.output)
                && final(self).cur().stack@.len() == old(self).cur().stack@.len() + 1
                && (tx_report.result is Success ==> final(self).cur().stack@.last().as_nat() == 1)
                && (tx_report.result is Revert ==> final(self).cur().stack@.last().as_nat() == 0),
            r is Ok ==> ({
                let pmem = old(self).cur().memory@;
                let off = retdata.ret_offset.as_nat() as int;
                &&& (retdata.ret_size == 0 ==> final(self).cur().memory@ == pmem)
                &&& (retdata.ret_size > 0 ==> final(self).cur().memory@
                    == crate::memory::write_view(
                    crate::memory::expand_view(
                        pmem,
                        crate::memory::round32(off + retdata.ret_size),
                    ),
                    off,
                    bytes_view(tx_report.output).take(
                        vstd::math::min(
                            retdata.ret_size as int,
                            bytes_view(tx_report.output).len() as int,
                        ),
                    ),
                ))
            }),
            r is Ok && tx_report.result is Success ==> final(self).db.model()
                == old(self).db.model(),
            r is Ok && tx_report.result is Revert && !retdata.should_transfer_value
                ==> final(self).db.model() == old(self).db.model(),
            r is Ok && tx_report.result is Revert && retdata.should_transfer_value ==> ({
                let m1 = read_through(old(self).db.store, old(self).db.model(), retdata.to@);
                let m2 = m1.insert(
                    retdata.to@,
                    (
                        (m1[retdata.to@].0 - retdata.value.as_nat()) as nat,
                        m1[retdata.to@].1,
                        m1[retdata.to@].2,
                        m1[retdata.to@].3,
                    ),
                );
                let m3 = read_through(old(self).db.store, m2, retdata.msg_sender@);
                final(self).db.model() == m3.insert(
                    retdata.msg_sender@,
                    (
                        (m3[retdata.msg_sender@].0 + retdata.value.as_nat()) as nat,
                        m3[retdata.msg_sender@].1,
                        m3[retdata.msg_sender@].2,
                        m3[retdata.msg_sender@].3,
                    ),
                )
            }),
            ({
                let m1 = read_through(old(self).db.store, old(self).db.model(), retdata.to@);
                let undo_ok = !(tx_report.result is Revert) || !retdata.should_transfer_value || (
                m1[retdata.to@].0 >= retdata.value.as_nat() && ({
                    let m2 = m1.insert(
                        retdata.to@,
                        (
                            (m1[retdata.to@].0 - retdata.value.as_nat()) as nat,
                            m1[retdata.to@].1,
                            m1[retdata.to@].2,
                            m1[retdata.to@].3,
                        ),
                    );
                    let m3 = read_through(old(self).db.store, m2, retdata.msg_sender@);
                    m3[retdata.msg_sender@].0 + retdata.value.as_nat() < crate::word::pow256(32)
                }));
                old(self).call_frames@.len() > 0 && tx_report.gas_used <= call_frame.gas_limit
                    && old(self).cur().gas_used >= call_frame.gas_limit - tx_report.gas_used
                    && old(self).cur().stack@.len() < 1024 && (retdata.ret_size == 0
                    || retdata.ret_offset.as_nat() + retdata.ret_size + 31 <= usize::MAX)
                    && undo_ok ==> r is Ok
            }),
            r is Err ==> frames_gas(final(self).call_frames@) <= frames_gas(
                old(self).call_frames@,
            ) + vstd::math::max(0, call_frame.gas_limit - tx_report.gas_used),
    {
        let gas_left_from_new_call_frame = match call_frame.gas_limit.checked_sub(
            tx_report.gas_used,
        ) {
            Some(g) => g,
            None => {
                return Err(VMError::Internal(InternalError::GasOverflow));
            },
        };
        if self.call_frames.len() == 0 {
            return Err(VMError::Internal(InternalError::CouldNotAccessLastCallframe));
        }
        let mut frame = self.take_frame();
        proof {
            assert(old(self).call_frames@[old(self).call_frames@.len() - 1].wf());
            crate::vm::lemma_frames_wf_drop(old(self).call_frames@);
        }
        let worked: Result<(), VMError> = match frame.gas_used.checked_sub(
            gas_left_from_new_call_frame,
        ) {
            Some(g) => {
                frame.gas_used = g;
                let mut new_logs = crate::vm::duplicate_logs(&tx_report.logs);
                frame.logs.append(&mut new_logs);
                match frame.memory.try_store_range(
                    &retdata.ret_offset,
                    retdata.ret_size,
                    &tx_report.output,
                ) {
                    Ok(()) => {
                        frame.sub_return_data = bytes_clone(&tx_report.output);
                        Ok(())
                    },
                    Err(e) => Err(e),
                }
            },
            None => Err(VMError::Internal(InternalError::GasOverflow)),
        };
        self.put_frame(frame);
        proof {
            assert(self.call_frames@.drop_last() =~= old(self).call_frames@.drop_last());
            assert(self.call_frames@.last().wf());
            crate::vm::lemma_frames_wf_push(
                old(self).call_frames@.drop_last(),
                self.call_frames@.last(),
            );
            crate::vm::lemma_frames_gas_update(old(self).call_frames@, self.call_frames@.last());
            assert(self.call_frames@ =~= old(self).call_frames@.update(
                old(self).call_frames@.len() - 1,
                self.call_frames@.last(),
            ));
            assert forall|i: int| 0 <= i < old(self).call_frames@.len()
                implies #[trigger] self.call_frames@[i].gas_limit == old(
                self,
            ).call_frames@[i].gas_limit by {
                if i < old(self).call_frames@.len() - 1 {
                    assert(self.call_frames@[i] == old(self).call_frames@.drop_last()[i]);
                }
            }
        }
        worked?;
        let push_value = match tx_report.result {
            TxResult::Success => success_for_call(),
            TxResult::Revert(_) => {
                if retdata.should_transfer_value {
                    self.db.decrease_account_balance(&retdata.to, &retdata.value)?;
                    self.db.increase_account_balance(&retdata.msg_sender, &retdata.value)?;
                }
                revert_for_call()
            },
        };
        let ghost mid = *self;
        let mut frame = self.take_frame();
        proof {
            assert(mid.call_frames@[mid.call_frames@.len() - 1].wf());
            crate::vm::lemma_frames_wf_drop(mid.call_frames@);
        }
        let pushed = frame.stack.push(push_value);
        self.put_frame(frame);
        proof {
            assert(self.call_frames@.drop_last() =~= old(self).call_frames@.drop_last());
            assert(self.call_frames@.last().wf());
            crate::vm::lemma_frames_wf_push(
                mid.call_frames@.drop_last(),
                self.call_frames@.last(),
            );
            crate::vm::lemma_frames_gas_update(mid.call_frames@, self.call_frames@.last());
            assert(self.call_frames@ =~= mid.call_frames@.update(
                mid.call_frames@.len() - 1,
                self.call_frames@.last(),
            ));
            assert forall|i: int| 0 <= i < mid.call_frames@.len()
                implies #[trigger] self.call_frames@[i].gas_limit
                    == mid.call_frames@[i].gas_limit by {
                if i < mid.call_frames@.len() - 1 {
                    assert(self.call_frames@[i] == mid.call_frames@.drop_last()[i]);
                }
            }
        }
        pushed
    }

    /// Give the parent back the reserved gas the child did not use; on
    /// success push the new address, on revert undo the seeding, drop
    /// the account and push 0.
    pub fn handle_return_create(
        &mut self,
        tx_report: &ExecutionReport,
        retdata: RetData,
        call_frame: &CallFrame,
    ) -> (r: Result<(), VMError>)
        requires
            old(self).wf(),
        ensures
            final(self).wf(),
            final(self).db.store == old(self).db.store,
            final(self).tx_kind == old(self).tx_kind,
            final(self).access_list == old(self).access_list,
            final(self).cache_backup == old(self).cache_backup,
            final(self).return_data == old(self).return_data,
            final(self).backups == old(self).backups,
            final(self).env == old(self).env,
            final(self).call_frames@.len() == old(self).call_frames@.len(),
            forall|i: int| 0 <= i < old(self).call_frames@.len()
                ==> #[trigger] final(self).call_frames@[i].gas_limit == old(
                self,
            ).call_frames@[i].gas_limit,
            r is Ok ==> old(self).call_frames@.len() > 0
                && tx_report.gas_used <= retdata.max_message_call_gas
                && frames_gas(final(self).call_frames@) == frames_gas(old(self).call_frames@)
                    + (retdata.max_message_call_gas - tx_report.gas_used)
                && final(self).cur().stack@.len() == old(self).cur().stack@.len() + 1
                && (tx_report.result is Success ==> crate::word::be_nat(
                    final(self).cur().stack@.last()@,
                ) == crate::word::be_nat(retdata.to@))
                && (tx_report.result is Revert ==> final(self).cur().stack@.last().as_nat() == 0
                    && !final(self).accrued_substate.created_accounts@.contains(retdata.to@)),
            r is Ok ==> ({
                // The revert payload survives only for an explicit
                // REVERT; any other outcome leaves the parent's
                // return-data buffer as it was.
                &&& (tx_report.result == TxResult::Revert(VMError::RevertOpcode)
                    ==> final(self).cur().sub_return_data_view() == bytes_view(tx_report.output))
                &&& (tx_report.result != TxResult::Revert(VMError::RevertOpcode)
                    ==> final(self).cur().sub_return_data_view()
                        == old(self).cur().sub_return_data_view())
            }),
            r is Ok && tx_report.result is Success ==> final(self).db.model()
                == old(self).db.model(),
            r is Ok && tx_report.result is Revert ==> ({
                let m1 = read_through(
                    old(self).db.store,
                    old(self).db.model(),
                    retdata.msg_sender@,
                );
                final(self).db.model() == m1.insert(
                    retdata.msg_sender@,
                    (
                        (m1[retdata.msg_sender@].0 + retdata.value.as_nat()) as nat,
                        m1[retdata.msg_sender@].1,
                        m1[retdata.msg_sender@].2,
                        m1[retdata.msg_sender@].3,
                    ),
                ).remove(retdata.to@)
            }),
            ({
                let m1 = read_through(
                    old(self).db.store,
                    old(self).db.model(),
                    retdata.msg_sender@,
                );
                let undo_ok = !(tx_report.result is Revert) || m1[retdata.msg_sender@].0
                    + retdata.value.as_nat() < crate::word::pow256(32);
                old(self).call_frames@.len() > 0 && tx_report.gas_used
                    <= retdata.max_message_call_gas && old(self).cur().gas_used
                    >= retdata.max_message_call_gas - tx_report.gas_used
                    && old(self).cur().stack@.len() < 1024 && undo_ok ==> r is Ok
            }),
            r is Err ==> frames_gas(final(self).call_frames@) <= frames_gas(
                old(self).call_frames@,
            ) + vstd::math::max(0, retdata.max_message_call_gas - tx_report.gas_used),
    {
        let unused_gas = match retdata.max_message_call_gas.checked_sub(tx_report.gas_used) {
            Some(g) => g,
            None => {
                return Err(VMError::Internal(InternalError::GasOverflow));
            },
        };
        if self.call_frames.len() == 0 {
            return Err(VMError::Internal(InternalError::CouldNotAccessLastCallframe));
        }
        let mut frame = self.take_frame();
        proof {
            assert(old(self).call_frames@[old(self).call_frames@.len() - 1].wf());
            crate::vm::lemma_frames_wf_drop(old(self).call_frames@);
        }
        let worked: Result<(), VMError> = match frame.gas_used.checked_sub(unused_gas) {
            Some(g) => {
                frame.gas_used = g;
                let mut new_logs = crate::vm::duplicate_logs(&tx_report.logs);
                frame.logs.append(&mut new_logs);
                Ok(())
            },
            None => Err(VMError::Internal(InternalError::GasOverflow)),
        };
        self.put_frame(frame);
        proof {
            assert(self.call_frames@.drop_last() =~= old(self).call_frames@.drop_last());
            assert(self.call_frames@.last().wf());
            crate::vm::lemma_frames_wf_push(
                old(self).call_frames@.drop_last(),
                self.call_frames@.last(),
            );
            crate::vm::lemma_frames_gas_update(old(self).call_frames@, self.call_frames@.last());
            assert(self.call_frames@ =~= old(self).call_frames@.update(
                old(self).call_frames@.len() - 1,
                self.call_frames@.last(),
            ));
            assert forall|i: int| 0 <= i < old(self).call_frames@.len()
                implies #[trigger] self.call_frames@[i].gas_limit == old(
                self,
            ).call_frames@[i].gas_limit by {
                if i < old(self).call_frames@.len() - 1 {
                    assert(self.call_frames@[i] == old(self).call_frames@.drop_last()[i]);
                }
            }
        }
        worked?;
        let is_revert_opcode = match tx_report.result {
            TxResult::Success => false,
            TxResult::Revert(err) => {
                self.db.increase_account_balance(&retdata.msg_sender, &retdata.value)?;
                self.db.remove_account(&retdata.to);
                self.accrued_substate.created_accounts.remove(&retdata.to);
                err == VMError::RevertOpcode
            },
        };
        let push_value = match tx_report.result {
            TxResult::Success => address_to_word(&retdata.to),
            TxResult::Revert(_) => revert_for_call(),
        };
        let ghost mid = *self;
        let mut frame = self.take_frame();
        proof {
            assert(mid.call_frames@[mid.call_frames@.len() - 1].wf());
            crate::vm::lemma_frames_wf_drop(mid.call_frames@);
        }
        if is_revert_opcode {
            frame.sub_return_data = bytes_clone(&tx_report.output);
        }
        let pushed = frame.stack.push(push_value);
        self.put_frame(frame);
        proof {
            assert(self.call_frames@.drop_last() =~= old(self).call_frames@.drop_last());
            assert(self.call_frames@.last().wf());
            crate::vm::lemma_frames_wf_push(
                mid.call_frames@.drop_last(),
                self.call_frames@.last(),
            );
            crate::vm::lemma_frames_gas_update(mid.call_frames@, self.call_frames@.last());
            assert(self.call_frames@ =~= mid.call_frames@.update(
                mid.call_frames@.len() - 1,
                self.call_frames@.last(),
            ));
            if tx_report.result is Success {
                crate::word::lemma_be_nat_split(push_value@, 12);
                crate::word::lemma_be_nat_zero(push_value@.take(12));
            }
        }
        pushed
    }

    /// INVALID: halts the frame with all gas consumed; the revert path
    /// does the consuming.
    pub fn op_invalid(&mut self) -> (r: Result<OpcodeResult, VMError>)
        ensures
            r == Err::<OpcodeResult, VMError>(VMError::InvalidOpcode),
            *final(self) == *old(self),
    {
        Err(VMError::InvalidOpcode)
    }
}

} // verus!
