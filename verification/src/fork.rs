//! Named protocol revisions and the EVM configuration they select.

use vstd::prelude::*;

verus! {

/// Protocol revision, in chronological order.
#[derive(Clone, Copy, Debug, PartialEq, Eq, Structural)]
pub enum Fork {
    Frontier,
    Homestead,
    Tangerine,
    SpuriousDragon,
    Byzantium,
    Constantinople,
    Istanbul,
    Berlin,
    London,
    Paris,
    Shanghai,
    Cancun,
    Prague,
    Osaka,
}

/// Position of a fork in history; later forks get larger numbers.
pub open spec fn fork_num(f: Fork) -> int {
    match f {
        Fork::Frontier => 0,
        Fork::Homestead => 1,
        Fork::Tangerine => 2,
        Fork::SpuriousDragon => 3,
        Fork::Byzantium => 4,
        Fork::Constantinople => 5,
        Fork::Istanbul => 6,
        Fork::Berlin => 7,
        Fork::London => 8,
        Fork::Paris => 9,
        Fork::Shanghai => 10,
        Fork::Cancun => 11,
        Fork::Prague => 12,
        Fork::Osaka => 13,
    }
}

impl Fork {
    pub fn index(self) -> (r: u8)
        ensures
            r == fork_num(self),
    {
        match self {
            Fork::Frontier => 0,
            Fork::Homestead => 1,
            Fork::Tangerine => 2,
            Fork::SpuriousDragon => 3,
            Fork::Byzantium => 4,
            Fork::Constantinople => 5,
            Fork::Istanbul => 6,
            Fork::Berlin => 7,
            Fork::London => 8,
            Fork::Paris => 9,
            Fork::Shanghai => 10,
            Fork::Cancun => 11,
            Fork::Prague => 12,
            Fork::Osaka => 13,
        }
    }

    /// Whether this fork is `other` or later.
    pub fn at_least(self, other: Fork) -> (r: bool)
        ensures
            r == (fork_num(self) >= fork_num(other)),
    {
        self.index() >= other.index()
    }

    /// Whether this fork comes before `other`.
    pub fn before(self, other: Fork) -> (r: bool)
        ensures
            r == (fork_num(self) < fork_num(other)),
    {
        self.index() < other.index()
    }
}

pub const MAX_BLOB_COUNT: u64 = 6;

pub const MAX_BLOB_COUNT_ELECTRA: u64 = 9;

pub const TARGET_BLOB_GAS_PER_BLOCK: u64 = 393216;

pub const TARGET_BLOB_GAS_PER_BLOCK_PECTRA: u64 = 786432;

pub const BLOB_BASE_FEE_UPDATE_FRACTION: u64 = 3338477;

pub const BLOB_BASE_FEE_UPDATE_FRACTION_PRAGUE: u64 = 5007716;

/// Per-fork blob parameters.
#[derive(Clone, Copy, Debug, PartialEq, Eq, Structural)]
pub struct ForkBlobSchedule {
    pub target: u64,
    pub max: u64,
    pub base_fee_update_fraction: u64,
}

/// The configuration the interpreter runs under: a fork and the blob
/// schedule that goes with it.
#[derive(Clone, Copy, Debug, PartialEq, Eq, Structural)]
pub struct EVMConfig {
    pub fork: Fork,
    pub blob_schedule: ForkBlobSchedule,
}

impl EVMConfig {
    pub fn new(fork: Fork, blob_schedule: ForkBlobSchedule) -> (r: EVMConfig)
        ensures
            r.fork == fork,
            r.blob_schedule == blob_schedule,
    {
        EVMConfig { fork, blob_schedule }
    }

    /// The default blob schedule of a fork.
    pub fn canonical_values(fork: Fork) -> (r: ForkBlobSchedule)
        ensures
            r.max == Self::spec_max_blobs_per_block(fork),
            r.target == Self::spec_target_blob_gas(fork),
            r.base_fee_update_fraction == Self::spec_base_fee_update_fraction(fork),
    {
        let max_blobs_per_block: u64 = Self::max_blobs_per_block(fork);
        let target: u64 = Self::get_target_blob_gas_per_block_(fork);
        let base_fee_update_fraction: u64 = Self::get_blob_base_fee_update_fraction_value(fork);
        ForkBlobSchedule { target, max: max_blobs_per_block, base_fee_update_fraction }
    }

    pub open spec fn spec_max_blobs_per_block(fork: Fork) -> u64 {
        if fork == Fork::Prague || fork == Fork::Osaka {
            MAX_BLOB_COUNT_ELECTRA
        } else {
            MAX_BLOB_COUNT
        }
    }

    pub open spec fn spec_target_blob_gas(fork: Fork) -> u64 {
        if fork == Fork::Prague || fork == Fork::Osaka {
            TARGET_BLOB_GAS_PER_BLOCK_PECTRA
        } else {
            TARGET_BLOB_GAS_PER_BLOCK
        }
    }

    pub open spec fn spec_base_fee_update_fraction(fork: Fork) -> u64 {
        if fork == Fork::Prague || fork == Fork::Osaka {
            BLOB_BASE_FEE_UPDATE_FRACTION_PRAGUE
        } else {
            BLOB_BASE_FEE_UPDATE_FRACTION
        }
    }

    fn max_blobs_per_block(fork: Fork) -> (r: u64)
        ensures
            r == Self::spec_max_blobs_per_block(fork),
    {
        match fork {
            Fork::Prague => MAX_BLOB_COUNT_ELECTRA,
            Fork::Osaka => MAX_BLOB_COUNT_ELECTRA,
            _ => MAX_BLOB_COUNT,
        }
    }

    fn get_blob_base_fee_update_fraction_value(fork: Fork) -> (r: u64)
        ensures
            r == Self::spec_base_fee_update_fraction(fork),
    {
        match fork {
            Fork::Prague | Fork::Osaka => BLOB_BASE_FEE_UPDATE_FRACTION_PRAGUE,
            _ => BLOB_BASE_FEE_UPDATE_FRACTION,
        }
    }

    fn get_target_blob_gas_per_block_(fork: Fork) -> (r: u64)
        ensures
            r == Self::spec_target_blob_gas(fork),
    {
        match fork {
            Fork::Prague | Fork::Osaka => TARGET_BLOB_GAS_PER_BLOCK_PECTRA,
            _ => TARGET_BLOB_GAS_PER_BLOCK,
        }
    }
}

impl Default for EVMConfig {
    /// The default configuration: the default fork with its canonical
    /// blob schedule.
    fn default() -> (r: Self)
        ensures
            r.fork == Fork::Cancun,
            r.blob_schedule == (ForkBlobSchedule {
                target: TARGET_BLOB_GAS_PER_BLOCK,
                max: MAX_BLOB_COUNT,
                base_fee_update_fraction: BLOB_BASE_FEE_UPDATE_FRACTION,
            }),
    {
        let fork = Fork::Cancun;
        EVMConfig { fork, blob_schedule: Self::canonical_values(fork) }
    }
}

} // verus!
