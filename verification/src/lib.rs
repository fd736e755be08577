//! Process-memory introspection primitives.
//!
//! The crate models a target address space as explicit state and proves the
//! behaviour of the operations every platform backend must provide: reading,
//! writing, protecting, allocating and freeing virtual memory, together with
//! the portable protection-flag encoding and a wildcarded byte-pattern
//! scanner. Platform frontends drive a live process through the same
//! interface; everything here is ordinary, verified Rust.

pub mod errors;
pub mod laws;
pub mod memory;
pub mod process;
pub mod protections;
pub mod sigscan;
