//! The ways in which a request can fail.
use vstd::prelude::*;

verus! {

/// Why a request was turned down. At the system call boundary every one of
/// these becomes the return value -1.
#[derive(Clone, Copy, Debug, PartialEq, Eq, Structural)]
pub enum SyscallError {
    /// The request itself is malformed.
    InvalidArgument,
    /// The address range is not usable for the request: part of it is not
    /// mapped, is mapped already, or lies past the end of the address space.
    InvalidAddress,
    /// The request is well formed but there is no room left to grant it.
    ResourceExhausted,
}

} // verus!
