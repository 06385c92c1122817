//! An Ethereum Virtual Machine interpreter: executes one transaction
//! against a cached view of a key/value pre-state and produces an
//! execution report, with gas metering, the call/create protocol and
//! the snapshot/revert discipline stated in contracts and proved.
//!
//! The frame machine lives in `vm` and `opcode_handlers`; its data
//! model in `word`, `stack`, `memory`, `call_frame`, `account`, `db`
//! and `substate`; the fork-parameterised gas schedule in `gas_cost`;
//! and the laws the machine obeys, proved once over the contracts'
//! own spec functions, in `laws`.

use vstd::prelude::*;

pub mod account;
pub mod bytebuf;
pub mod call_frame;
pub mod db;
pub mod environment;
pub mod errors;
pub mod fork;
pub mod gas_cost;
pub mod hashing;
pub mod kv;
pub mod laws;
pub mod memory;
pub mod opcode_handlers;
pub mod precompiles;
pub mod stack;
pub mod substate;
pub mod utils;
pub mod vm;
pub mod word;

verus! {

} // verus!
