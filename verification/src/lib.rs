//! Narrows two-byte jump-target pushes in EVM bytecode to one-byte pushes and
//! repairs the jump targets that the removed bytes displace.
pub mod bytecode;
pub mod engine;
pub mod hex;
pub mod immediate;
pub mod laws;
pub mod layout;
pub mod op;
pub mod opcode;

pub use bytecode::{bunny_hop, try_bunny_hop};
pub use op::Op;
