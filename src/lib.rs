//! A capability-based microkernel core: thread control blocks, a fixed-priority
//! budget/cooldown scheduler, synchronous IPC with copy and page-loan transports,
//! per-thread capability lists, a port registry, syscall dispatch and the MPU
//! region program derived from a task's region table.
use vstd::prelude::*;

pub mod abi;
pub mod space;
pub mod regions;
pub mod mpu;
pub mod caps;
pub mod task;
pub mod tcb;
pub mod registry;
pub mod scheduler;
pub mod kernel;
pub mod syscalls;
pub mod builder;
pub mod loans;

verus! {

/// Errors inside the kernel. `ABI` errors are reported to the calling thread;
/// the others are faults of the kernel or of its configuration.
#[derive(Clone, Copy, Debug, PartialEq, Eq)]
pub enum KernelError {
    InvalidPriority,
    InvalidThreadRef,
    InvalidTaskRef,
    InvalidEntrypoint,
    TooManyThreads,
    InvalidCapRef,
    StackExhausted,
    InvalidTaskPtr,
    InitTCBNotFound,
    ABI(abi::Error),
}

impl KernelError {
    /// Wraps an error reported to user space.
    pub fn from_abi(e: abi::Error) -> (r: KernelError)
        ensures
            r == KernelError::ABI(e),
    {
        KernelError::ABI(e)
    }
}

} // verus!
