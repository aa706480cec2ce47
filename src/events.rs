use vstd::prelude::*;

verus! {

/// The state of one memory word after an access.
#[derive(Debug, Clone, Copy, PartialEq, Eq)]
pub struct MemoryRecord {
    pub value: u32,
    pub shard: u32,
    pub timestamp: u32,
}

/// Whether an access read or wrote its word.
#[derive(Debug, Clone, Copy, PartialEq, Eq)]
pub enum AccessKind {
    Read,
    Write,
}

/// One access to one memory word.
#[derive(Debug, Clone, Copy, PartialEq, Eq)]
pub struct MemoryAccessRecord {
    pub addr: u32,
    pub prev_value: u32,
    pub value: u32,
    pub shard: u32,
    pub channel: u32,
    pub timestamp: u32,
    pub kind: AccessKind,
}

/// The accesses to one address within one operation: the word's state
/// before the first of them and after the last.
#[derive(Debug, Clone, Copy, PartialEq, Eq)]
pub struct MemoryLocalEvent {
    pub addr: u32,
    pub initial_mem_access: MemoryRecord,
    pub final_mem_access: MemoryRecord,
}

/// The field that a field-tower precompile works over.
#[derive(Debug, Clone, Copy, PartialEq, Eq)]
pub enum FieldType {
    Bn254,
    Bls12381,
}

/// A multiplication of two elements of a quadratic field extension.
#[derive(Debug, Clone, PartialEq, Eq)]
pub struct Fp2MulEvent {
    pub lookup_id: u64,
    pub shard: u32,
    pub channel: u32,
    pub clk: u32,
    pub x_ptr: u32,
    pub x: Vec<u32>,
    pub y_ptr: u32,
    pub y: Vec<u32>,
    pub x_memory_records: Vec<MemoryAccessRecord>,
    pub y_memory_records: Vec<MemoryAccessRecord>,
    pub local_mem_access: Vec<MemoryLocalEvent>,
}

/// An application of the Keccak-f[1600] permutation to a state in memory.
#[derive(Debug, Clone, PartialEq, Eq)]
pub struct KeccakPermuteEvent {
    pub lookup_id: u64,
    pub shard: u32,
    pub channel: u32,
    pub clk: u32,
    pub pre_state: Vec<u64>,
    pub post_state: Vec<u64>,
    pub state_read_records: Vec<MemoryAccessRecord>,
    pub state_write_records: Vec<MemoryAccessRecord>,
    pub state_addr: u32,
    pub local_mem_access: Vec<MemoryLocalEvent>,
}

/// The events of one shard, by kind, and the memory accesses that no
/// precompile claimed.
pub struct ExecutionRecord {
    pub local_memory_access: Vec<MemoryLocalEvent>,
    pub keccak_permute_events: Vec<KeccakPermuteEvent>,
    pub bn254_fp2_mul_events: Vec<Fp2MulEvent>,
    pub bls12381_fp2_mul_events: Vec<Fp2MulEvent>,
}

impl ExecutionRecord {
    /// An empty record.
    pub fn new() -> (r: ExecutionRecord)
        ensures
            r.local_memory_access@.len() == 0,
            r.keccak_permute_events@.len() == 0,
            r.bn254_fp2_mul_events@.len() == 0,
            r.bls12381_fp2_mul_events@.len() == 0,
    {
        ExecutionRecord {
            local_memory_access: Vec::new(),
            keccak_permute_events: Vec::new(),
            bn254_fp2_mul_events: Vec::new(),
            bls12381_fp2_mul_events: Vec::new(),
        }
    }
}

/// A fault that stops execution.
#[derive(Debug, Clone, Copy, PartialEq, Eq)]
pub enum ExecutionError {
    /// A pointer is not a multiple of 4.
    AlignmentFault { addr: u32 },
    /// An address has no pending access to reconcile.
    MissingAccessRecord { addr: u32 },
    /// No precompile is registered under the syscall identifier.
    UnknownSyscall { id: u32 },
    /// A range of words runs past the end of the address space.
    AddressOverflow { addr: u32 },
    /// An argument that must be zero is not.
    InvalidArgument { arg: u32 },
}

} // verus!
