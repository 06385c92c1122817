//! Error kinds, opcode outcomes and the per-transaction execution report.
//!
//! Every error is deterministic. Internal errors abort the whole
//! transaction; every other error reverts the current frame only, and
//! `RevertOpcode` alone preserves the frame's output.

use vstd::prelude::*;
use crate::bytebuf::bytes_view;
use crate::word::{Address, U256};

verus! {

#[derive(Clone, Copy, Debug, PartialEq, Eq, Structural)]
pub enum OutOfGasError {
    ConsumedGasOverflow,
    MaxGasLimitExceeded,
    MemoryExpansionError,
    GasCostOverflow,
}

#[derive(Clone, Copy, Debug, PartialEq, Eq, Structural)]
pub enum InternalError {
    CouldNotAccessLastCallframe,
    CouldNotPopCallframe,
    ArithmeticOperationOverflow,
    GasOverflow,
    DivisionError,
    ConversionError,
    CouldNotComputeCreateAddress,
    AccountNotFound,
}

#[derive(Clone, Copy, Debug, PartialEq, Eq, Structural)]
pub enum VMError {
    StackUnderflow,
    StackOverflow,
    InvalidJump,
    InvalidOpcode,
    OpcodeNotAllowedInStaticContext,
    AddressAlreadyOccupied,
    BalanceOverflow,
    BalanceUnderflow,
    NonceOverflow,
    VeryLargeNumber,
    OutOfBounds,
    GasRefundsOverflow,
    GasRefundsUnderflow,
    RevertOpcode,
    /// The target is a precompile whose body this library does not
    /// carry; the frame reverts with its gas consumed.
    UnavailablePrecompile,
    OutOfGas(OutOfGasError),
    Internal(InternalError),
}

impl VMError {
    /// Internal errors abort the transaction instead of reverting a frame.
    pub open spec fn is_internal(self) -> bool {
        self is Internal
    }
}

#[derive(Clone, Copy, Debug, PartialEq, Eq, Structural)]
pub enum TxResult {
    Success,
    Revert(VMError),
}

#[derive(Clone, Copy, Debug, PartialEq, Eq, Structural)]
pub enum OpcodeResult {
    Continue { pc_increment: usize },
    Halt,
}

/// One emitted log record.
pub struct Log {
    pub address: Address,
    pub topics: Vec<U256>,
    pub data: Vec<u8>,
}

/// What one transaction produced.
pub struct ExecutionReport {
    pub result: TxResult,
    pub gas_used: u64,
    pub gas_refunded: u64,
    pub logs: Vec<Log>,
    pub output: bytes::Bytes,
}

impl ExecutionReport {
    pub open spec fn output_view(&self) -> Seq<u8> {
        bytes_view(self.output)
    }

    pub open spec fn is_success(&self) -> bool {
        self.result is Success
    }
}

} // verus!
