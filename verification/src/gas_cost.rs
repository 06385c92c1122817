//! The fork-parameterised gas schedule: flat opcode costs, memory
//! expansion, storage access under EIP-2929, SSTORE under
//! EIP-2200/3529, and the EIP-150 cap on forwarded call gas.

use vstd::prelude::*;
use crate::errors::{OutOfGasError, VMError};
use crate::fork::{fork_num, Fork};
use crate::word::U256;

verus! {

pub const ADDRESS: u64 = 2;

pub const ORIGIN: u64 = 2;

pub const CALLER: u64 = 2;

pub const CALLVALUE: u64 = 2;

pub const CALLDATALOAD: u64 = 3;

pub const CALLDATASIZE: u64 = 2;

pub const CODESIZE: u64 = 2;

pub const GASPRICE: u64 = 2;

pub const RETURNDATASIZE: u64 = 2;

pub const POP: u64 = 2;

pub const PC: u64 = 2;

pub const MSIZE: u64 = 2;

pub const GAS: u64 = 2;

pub const JUMP: u64 = 8;

pub const JUMPI: u64 = 10;

pub const JUMPDEST: u64 = 1;

pub const TLOAD: u64 = 100;

pub const TSTORE: u64 = 100;

pub const PUSH0: u64 = 2;

pub const PUSHN: u64 = 3;

pub const DUPN: u64 = 3;

pub const SWAPN: u64 = 3;

pub const CALL_STIPEND: u64 = 2300;

pub const SSTORE_STIPEND: u64 = 2300;

pub const SELFDESTRUCT_REFUND: u64 = 24000;

pub const TX_BASE_COST: u64 = 21000;

pub const STANDARD_TOKEN_COST: u64 = 4;

pub const TOTAL_COST_FLOOR_PER_TOKEN: u64 = 10;

pub const INIT_CODE_MAX_SIZE: usize = 49152;

pub const CREATE_BASE_COST: u64 = 32000;

/// Whole 32-byte words needed for `n` bytes.
pub open spec fn words32(n: int) -> int {
    (n + 31) / 32
}

/// The quadratic memory price of a memory of `s` bytes.
pub open spec fn mem_cost(s: int) -> int {
    3 * (s / 32) + (s / 32) * (s / 32) / 512
}

/// What growing memory from `cur` to `new` bytes costs.
pub open spec fn mem_expansion(new: int, cur: int) -> int {
    if new <= cur {
        0
    } else {
        mem_cost(new) - mem_cost(cur)
    }
}

proof fn lemma_mem_cost_mono(a: int, b: int)
    requires
        0 <= a <= b,
    ensures
        mem_cost(a) <= mem_cost(b),
{
    let wa = a / 32;
    let wb = b / 32;
    assert(wa <= wb) by (nonlinear_arith)
        requires
            0 <= a <= b,
            wa == a / 32,
            wb == b / 32,
    ;
    assert(wa >= 0);
    assert(wa * wa <= wb * wb) by (nonlinear_arith)
        requires
            0 <= wa <= wb,
    ;
    assert(wa * wa / 512 <= wb * wb / 512) by (nonlinear_arith)
        requires
            wa * wa <= wb * wb,
            0 <= wa * wa,
    ;
}

/// The expansion fee from `current_size` to `new_size` bytes, or
/// `MemoryExpansionError` when it passes the gas type's range.
pub fn memory_expansion_cost(new_size: usize, current_size: usize) -> (r: Result<u64, VMError>)
    ensures
        r is Ok <==> mem_cost(new_size as int) <= u64::MAX,
        r matches Ok(c) ==> c == mem_expansion(new_size as int, current_size as int)
            && mem_expansion(new_size as int, current_size as int) >= 0,
        r is Err ==> r == Err::<u64, VMError>(
            VMError::OutOfGas(OutOfGasError::MemoryExpansionError),
        ),
{
    let w_new: u128 = (new_size / 32) as u128;
    proof {
        assert(w_new * w_new <= 0xFFFF_FFFF_FFFF_FFFF * 0xFFFF_FFFF_FFFF_FFFF) by (nonlinear_arith)
            requires
                0 <= w_new <= 0xFFFF_FFFF_FFFF_FFFF,
        ;
    }
    let cost_new: u128 = 3 * w_new + w_new * w_new / 512;
    if cost_new > u64::MAX as u128 {
        return Err(VMError::OutOfGas(OutOfGasError::MemoryExpansionError));
    }
    if new_size <= current_size {
        return Ok(0);
    }
    let w_cur: u128 = (current_size / 32) as u128;
    proof {
        assert(w_cur * w_cur <= 0xFFFF_FFFF_FFFF_FFFF * 0xFFFF_FFFF_FFFF_FFFF) by (nonlinear_arith)
            requires
                0 <= w_cur <= 0xFFFF_FFFF_FFFF_FFFF,
        ;
    }
    let cost_cur: u128 = 3 * w_cur + w_cur * w_cur / 512;
    proof {
        lemma_mem_cost_mono(current_size as int, new_size as int);
    }
    Ok((cost_new - cost_cur) as u64)
}

/// Cost of an n-byte copy: 3 per word.
pub fn copy_words_cost(size: usize) -> (r: Result<u64, VMError>)
    ensures
        r is Ok <==> 3 * words32(size as int) <= u64::MAX,
        r matches Ok(c) ==> c == 3 * words32(size as int),
        r is Err ==> r == Err::<u64, VMError>(VMError::OutOfGas(OutOfGasError::GasCostOverflow)),
{
    let w: u128 = ((size as u128) + 31) / 32;
    let c: u128 = 3 * w;
    if c > u64::MAX as u128 {
        Err(VMError::OutOfGas(OutOfGasError::GasCostOverflow))
    } else {
        Ok(c as u64)
    }
}

/// Static-plus-dynamic cost shared by the copy opcodes.
pub fn copy_opcode_cost(static_cost: u64, new_size: usize, current_size: usize, size: usize) -> (r:
    Result<u64, VMError>)
    ensures
        r matches Ok(c) ==> c == static_cost + 3 * words32(size as int) + mem_expansion(
            new_size as int,
            current_size as int,
        ) && mem_expansion(new_size as int, current_size as int) >= 0,
        r is Ok ==> static_cost + 3 * words32(size as int) + mem_expansion(
            new_size as int,
            current_size as int,
        ) <= u64::MAX,
        r is Err ==> (r matches Err(e) && e is OutOfGas),
        r is Err ==> mem_cost(new_size as int) > u64::MAX || 3 * words32(size as int) > u64::MAX
            || static_cost + 3 * words32(size as int) + mem_expansion(
            new_size as int,
            current_size as int,
        ) > u64::MAX,
{
    let expansion = memory_expansion_cost(new_size, current_size)?;
    let words = copy_words_cost(size)?;
    let partial = match static_cost.checked_add(words) {
        Some(t) => t,
        None => {
            return Err(VMError::OutOfGas(OutOfGasError::GasCostOverflow));
        },
    };
    match partial.checked_add(expansion) {
        Some(t) => Ok(t),
        None => Err(VMError::OutOfGas(OutOfGasError::GasCostOverflow)),
    }
}

/// MLOAD/MSTORE/MSTORE8: 3 plus expansion.
pub fn mem_access_cost(new_size: usize, current_size: usize) -> (r: Result<u64, VMError>)
    ensures
        r matches Ok(c) ==> c == 3 + mem_expansion(new_size as int, current_size as int)
            && mem_expansion(new_size as int, current_size as int) >= 0,
        r is Ok ==> 3 + mem_expansion(new_size as int, current_size as int) <= u64::MAX,
        r is Err ==> (r matches Err(e) && e is OutOfGas),
        r is Err ==> mem_cost(new_size as int) > u64::MAX
            || 3 + mem_expansion(new_size as int, current_size as int) > u64::MAX,
{
    let expansion = memory_expansion_cost(new_size, current_size)?;
    match 3u64.checked_add(expansion) {
        Some(t) => Ok(t),
        None => Err(VMError::OutOfGas(OutOfGasError::GasCostOverflow)),
    }
}

/// RETURN and REVERT charge expansion only.
pub fn exit_opcode(new_size: usize, current_size: usize) -> (r: Result<u64, VMError>)
    ensures
        r is Ok <==> mem_cost(new_size as int) <= u64::MAX,
        r matches Ok(c) ==> c == mem_expansion(new_size as int, current_size as int)
            && mem_expansion(new_size as int, current_size as int) >= 0,
        r is Err ==> (r matches Err(e) && e is OutOfGas),
{
    memory_expansion_cost(new_size, current_size)
}

/// EIP-2929 account access for the CALL family; flat before Berlin.
pub open spec fn call_access_cost(cold: bool, fork: Fork) -> int {
    if fork_num(fork) >= fork_num(Fork::Berlin) {
        if cold { 2600 } else { 100 }
    } else if fork_num(fork) >= fork_num(Fork::Tangerine) {
        700
    } else {
        40
    }
}

pub fn call_access_cost_exec(cold: bool, fork: Fork) -> (r: u64)
    ensures
        r == call_access_cost(cold, fork),
{
    if fork.at_least(Fork::Berlin) {
        if cold { 2600 } else { 100 }
    } else if fork.at_least(Fork::Tangerine) {
        700
    } else {
        40
    }
}

/// BALANCE: cold/warm from Berlin, flat before.
pub open spec fn balance_access_cost(cold: bool, fork: Fork) -> int {
    if fork_num(fork) >= fork_num(Fork::Berlin) {
        if cold { 2600 } else { 100 }
    } else if fork_num(fork) >= fork_num(Fork::Istanbul) {
        700
    } else if fork_num(fork) >= fork_num(Fork::Tangerine) {
        400
    } else {
        20
    }
}

pub fn balance(cold: bool, fork: Fork) -> (r: Result<u64, VMError>)
    ensures
        r matches Ok(c) ==> c == balance_access_cost(cold, fork),
        r is Ok,
{
    if fork.at_least(Fork::Berlin) {
        Ok(if cold { 2600 } else { 100 })
    } else if fork.at_least(Fork::Istanbul) {
        Ok(700)
    } else if fork.at_least(Fork::Tangerine) {
        Ok(400)
    } else {
        Ok(20)
    }
}

pub open spec fn extcodesize_access_cost(cold: bool, fork: Fork) -> int {
    if fork_num(fork) >= fork_num(Fork::Berlin) {
        if cold { 2600 } else { 100 }
    } else if fork_num(fork) >= fork_num(Fork::Tangerine) {
        700
    } else {
        20
    }
}

pub fn extcodesize(cold: bool, fork: Fork) -> (r: Result<u64, VMError>)
    ensures
        r matches Ok(c) ==> c == extcodesize_access_cost(cold, fork),
        r is Ok,
{
    if fork.at_least(Fork::Berlin) {
        Ok(if cold { 2600 } else { 100 })
    } else if fork.at_least(Fork::Tangerine) {
        Ok(700)
    } else {
        Ok(20)
    }
}

pub open spec fn extcodehash_access_cost(cold: bool, fork: Fork) -> int {
    if fork_num(fork) >= fork_num(Fork::Berlin) {
        if cold { 2600 } else { 100 }
    } else if fork_num(fork) >= fork_num(Fork::Istanbul) {
        700
    } else {
        400
    }
}

pub fn extcodehash(cold: bool, fork: Fork) -> (r: Result<u64, VMError>)
    ensures
        r matches Ok(c) ==> c == extcodehash_access_cost(cold, fork),
        r is Ok,
{
    if fork.at_least(Fork::Berlin) {
        Ok(if cold { 2600 } else { 100 })
    } else if fork.at_least(Fork::Istanbul) {
        Ok(700)
    } else {
        Ok(400)
    }
}

/// EXTCODECOPY: access plus copy plus expansion.
pub fn extcodecopy(size: usize, new_size: usize, current_size: usize, cold: bool, fork: Fork) -> (r:
    Result<u64, VMError>)
    ensures
        r matches Ok(c) ==> c == extcodesize_access_cost(cold, fork) + 3 * words32(size as int)
            + mem_expansion(new_size as int, current_size as int)
            && mem_expansion(new_size as int, current_size as int) >= 0,
        r is Err ==> (r matches Err(e) && e is OutOfGas),
        r is Err ==> mem_cost(new_size as int) > u64::MAX || 3 * words32(size as int) > u64::MAX
            || extcodesize_access_cost(cold, fork) + 3 * words32(size as int) + mem_expansion(
            new_size as int,
            current_size as int,
        ) > u64::MAX,
{
    let expansion = memory_expansion_cost(new_size, current_size)?;
    let words = copy_words_cost(size)?;
    let access = if fork.at_least(Fork::Berlin) {
        if cold { 2600u64 } else { 100u64 }
    } else if fork.at_least(Fork::Tangerine) {
        700u64
    } else {
        20u64
    };
    let partial = match access.checked_add(words) {
        Some(t) => t,
        None => {
            return Err(VMError::OutOfGas(OutOfGasError::GasCostOverflow));
        },
    };
    match partial.checked_add(expansion) {
        Some(t) => Ok(t),
        None => Err(VMError::OutOfGas(OutOfGasError::GasCostOverflow)),
    }
}

/// SLOAD across the forks.
pub open spec fn sload_cost(cold: bool, fork: Fork) -> int {
    if fork_num(fork) >= fork_num(Fork::Berlin) {
        if cold { 2100 } else { 100 }
    } else if fork_num(fork) >= fork_num(Fork::Istanbul) {
        800
    } else if fork_num(fork) >= fork_num(Fork::Tangerine) {
        200
    } else {
        50
    }
}

pub fn sload(cold: bool, fork: Fork) -> (r: Result<u64, VMError>)
    ensures
        r matches Ok(c) ==> c == sload_cost(cold, fork),
        r is Ok,
{
    if fork.at_least(Fork::Berlin) {
        Ok(if cold { 2100 } else { 100 })
    } else if fork.at_least(Fork::Istanbul) {
        Ok(800)
    } else if fork.at_least(Fork::Tangerine) {
        Ok(200)
    } else {
        Ok(50)
    }
}

/// SSTORE under EIP-2200/3529 (net metering from Constantinople and
/// Istanbul on, plus Berlin's cold surcharge), legacy metering before.
pub open spec fn sstore_cost(original: nat, current: nat, new: nat, cold: bool, fork: Fork) -> int {
    let base: int = if fork_num(fork) >= fork_num(Fork::Berlin) {
        if new == current {
            100
        } else if current == original {
            if original == 0 {
                20000
            } else {
                2900
            }
        } else {
            100
        }
    } else if fork_num(fork) >= fork_num(Fork::Istanbul) {
        if new == current {
            800
        } else if current == original {
            if original == 0 {
                20000
            } else {
                5000
            }
        } else {
            800
        }
    } else if fork == Fork::Constantinople {
        if new == current {
            200
        } else if current == original {
            if original == 0 {
                20000
            } else {
                5000
            }
        } else {
            200
        }
    } else {
        if current == 0 && new != 0 {
            20000
        } else {
            5000
        }
    };
    if fork_num(fork) >= fork_num(Fork::Berlin) && cold {
        base + 2100
    } else {
        base
    }
}

pub fn sstore(
    original_value: &U256,
    current_value: &U256,
    new_value: &U256,
    cold: bool,
    fork: Fork,
) -> (r: Result<u64, VMError>)
    ensures
        r matches Ok(c) ==> c == sstore_cost(
            original_value.as_nat(),
            current_value.as_nat(),
            new_value.as_nat(),
            cold,
            fork,
        ),
        r is Ok,
{
    let base: u64 = if fork.at_least(Fork::Berlin) {
        if new_value.eq_word(current_value) {
            100
        } else if current_value.eq_word(original_value) {
            if original_value.is_zero() {
                20000
            } else {
                2900
            }
        } else {
            100
        }
    } else if fork.at_least(Fork::Istanbul) {
        if new_value.eq_word(current_value) {
            800
        } else if current_value.eq_word(original_value) {
            if original_value.is_zero() {
                20000
            } else {
                5000
            }
        } else {
            800
        }
    } else if fork.index() == Fork::Constantinople.index() {
        if new_value.eq_word(current_value) {
            200
        } else if current_value.eq_word(original_value) {
            if original_value.is_zero() {
                20000
            } else {
                5000
            }
        } else {
            200
        }
    } else {
        if !current_value.is_zero() && !new_value.is_zero() {
            5000
        } else if current_value.is_zero() && !new_value.is_zero() {
            20000
        } else {
            5000
        }
    };
    if fork.at_least(Fork::Berlin) && cold {
        Ok(base + 2100)
    } else {
        Ok(base)
    }
}

/// SELFDESTRUCT: 5000 from Tangerine, plus cold access from Berlin,
/// plus 25000 when a value transfer brings a dead beneficiary to life.
pub open spec fn selfdestruct_cost(cold: bool, empty: bool, balance_nonzero: bool, fork: Fork)
    -> int {
    let base: int = if fork_num(fork) >= fork_num(Fork::Tangerine) {
        5000
    } else {
        0
    };
    let cold_part: int = if fork_num(fork) >= fork_num(Fork::Berlin) && cold {
        2600
    } else {
        0
    };
    let creation: int = if empty && balance_nonzero && fork_num(fork) >= fork_num(Fork::Tangerine) {
        25000
    } else {
        0
    };
    base + cold_part + creation
}

pub fn selfdestruct(cold: bool, account_is_empty: bool, balance_to_transfer: &U256, fork: Fork)
    -> (r: Result<u64, VMError>)
    ensures
        r matches Ok(c) ==> c == selfdestruct_cost(
            cold,
            account_is_empty,
            balance_to_transfer.as_nat() != 0,
            fork,
        ),
        r is Ok,
{
    let base: u64 = if fork.at_least(Fork::Tangerine) {
        5000
    } else {
        0
    };
    let cold_part: u64 = if fork.at_least(Fork::Berlin) && cold {
        2600
    } else {
        0
    };
    let creation: u64 = if account_is_empty && !balance_to_transfer.is_zero() && fork.at_least(
        Fork::Tangerine,
    ) {
        25000
    } else {
        0
    };
    Ok(base + cold_part + creation)
}

/// All but a 64th of the gas still in the frame (EIP-150).
pub open spec fn l64(g: int) -> int {
    g - g / 64
}

/// The most gas a frame may hand to a subcall.
pub fn max_message_call_gas(gas_remaining: u64) -> (r: u64)
    ensures
        r == l64(gas_remaining as int),
{
    gas_remaining - gas_remaining / 64
}

/// CREATE: base 32000, expansion, and 2 per init-code word from
/// Shanghai (EIP-3860); CREATE2 adds 6 per word for hashing.
pub fn create_cost(
    new_size: usize,
    current_size: usize,
    code_size: usize,
    is_create2: bool,
    fork: Fork,
) -> (r: Result<u64, VMError>)
    ensures
        r matches Ok(c) ==> c == CREATE_BASE_COST + mem_expansion(new_size as int, current_size as int)
            + (if fork_num(fork) >= fork_num(Fork::Shanghai) { 2 * words32(code_size as int) } else { 0 })
            + (if is_create2 { 6 * words32(code_size as int) } else { 0 }),
        r matches Ok(c) ==> c >= CREATE_BASE_COST,
        r is Err ==> (r matches Err(e) && e is OutOfGas),
{
    let expansion = memory_expansion_cost(new_size, current_size)?;
    let w: u128 = ((code_size as u128) + 31) / 32;
    let init_word_cost: u128 = if fork.at_least(Fork::Shanghai) { 2 * w } else { 0 };
    let hash_cost: u128 = if is_create2 { 6 * w } else { 0 };
    let total: u128 = CREATE_BASE_COST as u128 + expansion as u128 + init_word_cost + hash_cost;
    if total > u64::MAX as u128 {
        Err(VMError::OutOfGas(OutOfGasError::GasCostOverflow))
    } else {
        Ok(total as u64)
    }
}

/// What the CALL family charges and forwards: the caller pays
/// `cost = fixed + forwarded`, the callee starts with
/// `forwarded + stipend`, and `forwarded` is the EIP-150 minimum of
/// the stack gas and all-but-a-64th of what is left.
pub fn call_gas(
    fixed_cost: u64,
    gas_from_stack: &U256,
    gas_left: u64,
    with_stipend: bool,
) -> (r: Result<(u64, u64), VMError>)
    ensures
        r is Ok <==> fixed_cost <= gas_left,
        r matches Ok(p) ==> ({
            let available = gas_left - fixed_cost;
            let forwarded = vstd::math::min(gas_from_stack.as_nat() as int, l64(available));
            &&& p.0 == fixed_cost + forwarded
            &&& p.1 == forwarded + (if with_stipend { CALL_STIPEND as int } else { 0 })
        }),
        r is Err ==> r == Err::<(u64, u64), VMError>(
            VMError::OutOfGas(OutOfGasError::MaxGasLimitExceeded),
        ),
{
    let available = match gas_left.checked_sub(fixed_cost) {
        Some(a) => a,
        None => {
            return Err(VMError::OutOfGas(OutOfGasError::MaxGasLimitExceeded));
        },
    };
    let max_gas = max_message_call_gas(available);
    let forwarded = match gas_from_stack.to_u64() {
        Some(g) => if g < max_gas {
            g
        } else {
            max_gas
        },
        None => max_gas,
    };
    let cost = fixed_cost + forwarded;
    let gas_limit = if with_stipend {
        forwarded + CALL_STIPEND
    } else {
        forwarded
    };
    Ok((cost, gas_limit))
}

/// Number of EIP-7623 calldata tokens, times the standard token cost.
pub fn tx_calldata(data: &Vec<u8>) -> (r: Result<u64, VMError>)
    ensures
        r matches Ok(c) ==> c == STANDARD_TOKEN_COST * calldata_tokens(data@),
        r is Err ==> r == Err::<u64, VMError>(VMError::OutOfGas(OutOfGasError::GasCostOverflow)),
        4 * calldata_tokens(data@) <= u64::MAX ==> r is Ok,
{
    let mut tokens: u64 = 0;
    let n = data.len();
    let mut i: usize = 0;
    while i < n
        invariant
            i <= n,
            n == data@.len(),
            tokens == calldata_tokens(data@.take(i as int)),
            tokens <= 4 * i,
        decreases n - i,
    {
        proof {
            assert(data@.take(i + 1).drop_last() =~= data@.take(i as int));
        }
        if tokens > u64::MAX / 4 {
            proof {
                lemma_calldata_tokens_mono(data@, i as int);
                assert(data@.take(n as int) =~= data@);
            }
            return Err(VMError::OutOfGas(OutOfGasError::GasCostOverflow));
        }
        if data[i] == 0 {
            tokens = tokens + 1;
        } else {
            tokens = tokens + 4;
        }
        i += 1;
    }
    proof {
        assert(data@.take(n as int) =~= data@);
    }
    match tokens.checked_mul(STANDARD_TOKEN_COST) {
        Some(c) => Ok(c),
        None => Err(VMError::OutOfGas(OutOfGasError::GasCostOverflow)),
    }
}

/// Tokens only grow as calldata is scanned from the left.
proof fn lemma_calldata_tokens_mono(data: Seq<u8>, i: int)
    requires
        0 <= i <= data.len(),
    ensures
        calldata_tokens(data.take(i)) <= calldata_tokens(data.take(data.len() as int)),
    decreases data.len() - i,
{
    if i < data.len() {
        assert(data.take(i + 1).drop_last() =~= data.take(i));
        lemma_calldata_tokens_mono(data, i + 1);
    }
}

/// EIP-7623 tokens: 1 per zero byte, 4 per nonzero byte.
pub open spec fn calldata_tokens(data: Seq<u8>) -> int
    decreases data.len(),
{
    if data.len() == 0 {
        0
    } else {
        calldata_tokens(data.drop_last()) + (if data.last() == 0 { 1int } else { 4int })
    }
}

} // verus!
