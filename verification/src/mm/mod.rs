//! A task's address space: which pages are mapped, with which permissions,
//! and what they hold.
pub mod address_space;
pub mod model;
pub mod span;
