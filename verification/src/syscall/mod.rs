//! The system calls, by the part of the kernel they belong to.
pub mod process;
pub mod wire;
