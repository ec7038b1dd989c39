//! A verified interpreter core for EVM-compatible bytecode running inside a host
//! blockchain runtime: words, addresses, bytecode analysis, stack, memory, the
//! control instructions, the dispatch loop and the host-service precompiles.
pub mod address;
pub mod bytecode;
pub mod control;
pub mod execution;
pub mod memory;
pub mod opcode;
pub mod parameter;
pub mod precompiles;
pub mod semantics;
pub mod stack;
pub mod status;
pub mod word;

