//! The process and memory system calls of a small kernel.
//!
//! The handlers take the calling task and the clock reading as arguments, so
//! that every effect of a call is visible in its contract: what it returns,
//! what it writes into the task's memory, and what it leaves untouched.
//!
//! - `mm` holds the address space of a task: the model that the contracts
//!   speak of, the cutting of a byte range into runs that stay inside one
//!   page, and the pages themselves.
//! - `task` holds the state of a task: where it stands in its life, its call
//!   counters, its address space and its heap.
//! - `syscall` holds the handlers and the layout of the records that they
//!   store in a task's memory.
pub mod config;
pub mod error;
pub mod mm;
pub mod syscall;
pub mod task;

pub use error::SyscallError;
pub use mm::address_space::AddressSpace;
pub use mm::model::MapPermission;
pub use mm::span::ByteSpan;
pub use syscall::process::{
    sys_exit, sys_get_time, sys_mmap, sys_munmap, sys_sbrk, sys_task_info, sys_yield, TaskInfo,
    Terminated, TimeVal,
};
pub use task::{TaskControlBlock, TaskStatus};
