use vstd::prelude::*;
use crate::protections::Protections;

verus! {

/// A process named either by id or by display name.
#[derive(Debug, PartialEq, Eq)]
pub enum U32OrString {
    /// a process id
    U32(u32),
    /// a display name
    Str(String),
}

/// Failures while resolving or opening a process.
#[derive(Debug, PartialEq, Eq)]
pub enum ProcessError {
    /// the process exists but could not be opened with the needed rights
    UnableToOpenProcess(U32OrString),
    /// no running process matched the given id or name
    UnableToFindProcess(U32OrString),
    /// the platform refused to hand out the task reference
    UnableToGetTask,
}

/// Failures of the low-level memory operations.
#[derive(Debug, PartialEq, Eq)]
pub enum MemError {
    /// the range starting at the address could not be read
    ReadFailure(usize),
    /// the range starting at the address could not be written
    WriteFailure(usize),
    /// the protection of `(addr, size)` could not be changed to the state
    ProtectFailure(usize, usize, Protections),
    /// no `size` bytes could be committed at the hinted address
    AllocFailure(usize, Option<usize>),
    /// the range `(addr, size)` is not a prior allocation
    FreeFailure(usize, usize),
}

/// Failures while resolving a module.
#[derive(Debug, PartialEq, Eq)]
pub enum ModuleError {
    /// no loaded module matched the given name
    NoModuleFound(String),
}

/// Failures while taking a process-list snapshot.
#[derive(Debug, PartialEq, Eq)]
pub enum ProcListError {
    /// the platform enumerator could not be reached
    Unavailable,
}

/// Failures of a signature scan.
#[derive(Debug, PartialEq, Eq)]
pub enum ScanError {
    /// the pattern string is not well-formed
    InvalidPattern,
    /// the scanned range is not committed readable memory
    UnreadableRegion(usize),
}

} // verus!
