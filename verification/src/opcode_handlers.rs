//! Opcode handlers, one module per family.

pub mod environment;
pub mod stack_memory_storage_flow;
pub mod system;
