//! Execution-trace core of a zero-knowledge virtual machine: the preprocessed
//! byte-operation table, the memory access engine and the syscall precompiles.

pub mod bytes;
pub mod events;
pub mod memory;
pub mod keccak_permute;
pub mod fp2_mul;
pub mod syscall;
