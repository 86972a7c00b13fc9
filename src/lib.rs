//! A resumable orchestrator for a contract-execution virtual machine.
//!
//! The [`VM`] drives one transaction through an explicit stack of execution
//! frames. Frames suspend with a [`RequireError`] whenever they need a fact
//! about the outside world; the host supplies it as a commitment and resumes.
mod types;
mod commit;
mod machine;
mod vm;
pub mod laws;

pub use types::{
    AccountChange, Address, BlockHeader, CommitError, Context, ContextView,
    Instruction, Log, M256, Patch, RequireError, VMError,
};
pub use commit::{AccountCommitment, CommitKey, Commitments};
pub use machine::{Machine, MachineStatus, MachineView, StatusView};
pub use vm::{VMStatus, CALLSTACK_LIMIT, VM};
