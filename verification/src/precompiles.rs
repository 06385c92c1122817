//! The precompile address range of each fork. The bodies themselves
//! are outside collaborators; the interpreter only needs to know which
//! addresses they sit at, to warm them at transaction start.

use vstd::prelude::*;
use crate::bytebuf::{bytes_to_vec, bytes_view};
use crate::errors::{OutOfGasError, VMError};
use crate::fork::{fork_num, Fork};
use crate::word::{be_nat, Address};

verus! {

pub const SIZE_PRECOMPILES_PRE_CANCUN: u64 = 9;

pub const SIZE_PRECOMPILES_CANCUN: u64 = 10;

pub const SIZE_PRECOMPILES_PRAGUE: u64 = 17;

/// The highest precompile address a fork knows.
pub open spec fn spec_max_precompile_address(fork: Fork) -> int {
    if fork_num(fork) >= fork_num(Fork::Prague) {
        SIZE_PRECOMPILES_PRAGUE as int
    } else if fork_num(fork) >= fork_num(Fork::Cancun) {
        SIZE_PRECOMPILES_CANCUN as int
    } else {
        SIZE_PRECOMPILES_PRE_CANCUN as int
    }
}

pub fn max_precompile_address(fork: Fork) -> (r: u64)
    ensures
        r == spec_max_precompile_address(fork),
{
    if fork.at_least(Fork::Prague) {
        SIZE_PRECOMPILES_PRAGUE
    } else if fork.at_least(Fork::Cancun) {
        SIZE_PRECOMPILES_CANCUN
    } else {
        SIZE_PRECOMPILES_PRE_CANCUN
    }
}

pub open spec fn spec_is_precompile(addr: Seq<u8>, fork: Fork) -> bool {
    1 <= be_nat(addr) <= spec_max_precompile_address(fork)
}

/// Whether `address` names a precompile under `fork`.
pub fn is_precompile(address: &Address, fork: Fork) -> (r: bool)
    ensures
        r == spec_is_precompile(address@, fork),
{
    let mut j: usize = 0;
    while j < 19
        invariant
            j <= 19,
            forall|k: int| 0 <= k < j ==> address@[k] == 0,
        decreases 19 - j,
    {
        if address.octets[j] != 0 {
            proof {
                crate::word::lemma_be_nat_split(address@, j as int);
                crate::word::lemma_be_nat_head(address@, j as int);
                crate::word::lemma_pow256_positive((19 - j) as nat);
                crate::word::lemma_pow256_mono(1, (19 - j) as nat);
                assert(address@[j as int] * crate::word::pow256((19 - j) as nat)
                    >= crate::word::pow256((19 - j) as nat)) by (nonlinear_arith)
                    requires
                        address@[j as int] >= 1,
                        crate::word::pow256((19 - j) as nat) >= 1,
                ;
                assert(be_nat(address@.take(j as int)) * crate::word::pow256((20 - j) as nat) >= 0);
                assert(be_nat(address@) >= 256);
            }
            return false;
        }
        j += 1;
    }
    let low = address.octets[19];
    proof {
        crate::word::lemma_be_nat_split(address@, 19);
        crate::word::lemma_be_nat_zero(address@.take(19));
        assert(address@.skip(19) =~= seq![address@[19]]);
        assert(seq![address@[19]].drop_last() =~= Seq::<u8>::empty());
        assert(be_nat(address@) == address@[19]);
    }
    let max = max_precompile_address(fork);
    1 <= low as u64 && low as u64 <= max
}

/// Run a precompile: the data-copy precompile is implemented here in
/// full (its body is plain byte logic); the cryptographic bodies are
/// outside collaborators this library does not reproduce, so calling
/// one surfaces an error instead of a wrong result.
pub fn execute_precompile(
    address: &Address,
    calldata: &bytes::Bytes,
    gas_remaining: u64,
    fork: Fork,
) -> (r: Result<(Vec<u8>, u64), VMError>)
    ensures
        be_nat(address@) == 4 ==> ({
            let cost = 15 + 3 * crate::gas_cost::words32(bytes_view(*calldata).len() as int);
            &&& (cost <= gas_remaining ==> (r matches Ok(p) && p.0@ == bytes_view(*calldata)
                && p.1 == cost))
            &&& (cost > gas_remaining ==> r == Err::<(Vec<u8>, u64), VMError>(
                VMError::OutOfGas(OutOfGasError::MaxGasLimitExceeded),
            ))
        }),
        be_nat(address@) != 4 ==> r == Err::<(Vec<u8>, u64), VMError>(
            VMError::UnavailablePrecompile,
        ),
        r matches Ok(p) ==> p.1 <= gas_remaining,
{
    let mut j: usize = 0;
    let mut high_zero = true;
    while j < 19
        invariant
            j <= 19,
            high_zero ==> forall|k: int| 0 <= k < j ==> address@[k] == 0,
            !high_zero ==> exists|k: int| 0 <= k < 19 && address@[k] != 0,
        decreases 19 - j,
    {
        if address.octets[j] != 0 {
            proof {
                assert(address@[j as int] != 0);
            }
            high_zero = false;
        }
        j += 1;
    }
    if high_zero && address.octets[19] == 4 {
        proof {
            crate::word::lemma_be_nat_split(address@, 19);
            crate::word::lemma_be_nat_zero(address@.take(19));
            assert(address@.skip(19) =~= seq![address@[19]]);
            assert(seq![address@[19]].drop_last() =~= Seq::<u8>::empty());
            assert(be_nat(address@) == address@[19]);
        }
        let len = crate::bytebuf::bytes_len(calldata);
        let words: u128 = ((len as u128) + 31) / 32;
        let cost128: u128 = 15 + 3 * words;
        if cost128 > gas_remaining as u128 {
            return Err(VMError::OutOfGas(OutOfGasError::MaxGasLimitExceeded));
        }
        let output = bytes_to_vec(calldata);
        Ok((output, cost128 as u64))
    } else {
        proof {
            if be_nat(address@) == 4 {
                if !high_zero {
                    let k = choose|k: int| 0 <= k < 19 && address@[k] != 0;
                    crate::word::lemma_be_nat_split(address@, k);
                    crate::word::lemma_be_nat_head(address@, k);
                    crate::word::lemma_pow256_positive((19 - k) as nat);
                    crate::word::lemma_pow256_mono(1, (19 - k) as nat);
                    assert(address@[k] * crate::word::pow256((19 - k) as nat)
                        >= crate::word::pow256((19 - k) as nat)) by (nonlinear_arith)
                        requires
                            address@[k] >= 1,
                            crate::word::pow256((19 - k) as nat) >= 1,
                    ;
                    assert(be_nat(address@.take(k)) * crate::word::pow256((20 - k) as nat) >= 0);
                    assert(be_nat(address@) >= 256);
                } else {
                    crate::word::lemma_be_nat_split(address@, 19);
                    crate::word::lemma_be_nat_zero(address@.take(19));
                    assert(address@.skip(19) =~= seq![address@[19]]);
                    assert(seq![address@[19]].drop_last() =~= Seq::<u8>::empty());
                    assert(be_nat(address@) == address@[19]);
                }
            }
        }
        Err(VMError::UnavailablePrecompile)
    }
}

} // verus!
