//! The memory that the benchmark takes.
use vstd::prelude::*;

verus! {

/// The memory that a process takes.
#[derive(Debug, Clone, Copy, PartialEq, Eq, Structural)]
pub struct ProcessMemory {
    pub working_set_bytes: u64,
    pub private_bytes: u64,
}

/// What the counters of the system say of the memory of a process.
pub fn process_memory(working_set: usize, private: usize) -> (res: ProcessMemory)
    ensures
        res.working_set_bytes == working_set,
        res.private_bytes == private,
{
    ProcessMemory { working_set_bytes: working_set as u64, private_bytes: private as u64 }
}

} // verus!
