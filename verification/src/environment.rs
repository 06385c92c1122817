//! Per-transaction environment shared by every frame.

use vstd::prelude::*;
use crate::fork::EVMConfig;
use crate::substate::TransientStorage;
use crate::word::{Address, U256};

verus! {

pub struct Environment {
    pub origin: Address,
    pub coinbase: Address,
    pub gas_limit: u64,
    pub gas_price: U256,
    pub base_fee_per_gas: U256,
    /// What the block charges per unit of blob gas (EIP-4844).
    pub blob_gas_price: U256,
    pub config: EVMConfig,
    /// Accumulates across frames; committed only on transaction success.
    pub refunded_gas: u64,
    pub transient_storage: TransientStorage,
}

impl Environment {
    pub open spec fn wf(&self) -> bool {
        self.transient_storage.wf()
    }
}

} // verus!
