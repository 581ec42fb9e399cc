//! The error kinds of the store.
//!
//! The surrounding application turns these into display strings for the
//! GUI shell, appending whatever path or operating-system context it has at
//! the call site; the kinds themselves carry no payload so that contracts
//! can speak of them by value.

use vstd::prelude::*;

verus! {

/// A failure of a store operation.
#[derive(Clone, Copy, Debug, PartialEq, Eq, Structural)]
pub enum StoreError {
    /// A file or path whose existence is required is missing.
    NotFound,
    /// A create operation collided with an existing file or directory.
    AlreadyExists,
    /// A directory opened as a project has no descriptor file.
    InvalidProject,
    /// A project descriptor file exists but cannot be parsed.
    CorruptDescriptor,
    /// A resolved path escapes the base it must stay under.
    PathTraversal,
    /// The user's home directory cannot be determined.
    NoHomeDirectory,
    /// An underlying filesystem operation failed.
    IoError,
}

impl StoreError {
    /// A short human-readable phrase for the error, the fixed part of the
    /// display string the facade builds.
    pub fn message(&self) -> (r: &'static str)
        ensures
            r@ == self.message_spec(),
    {
        match self {
            StoreError::NotFound => "not found",
            StoreError::AlreadyExists => "already exists",
            StoreError::InvalidProject => "not a valid project: descriptor not found",
            StoreError::CorruptDescriptor => "failed to parse project descriptor",
            StoreError::PathTraversal => "path traversal attempt detected",
            StoreError::NoHomeDirectory => "could not determine home directory",
            StoreError::IoError => "filesystem operation failed",
        }
    }

    pub open spec fn message_spec(self) -> Seq<char> {
        match self {
            StoreError::NotFound => "not found"@,
            StoreError::AlreadyExists => "already exists"@,
            StoreError::InvalidProject => "not a valid project: descriptor not found"@,
            StoreError::CorruptDescriptor => "failed to parse project descriptor"@,
            StoreError::PathTraversal => "path traversal attempt detected"@,
            StoreError::NoHomeDirectory => "could not determine home directory"@,
            StoreError::IoError => "filesystem operation failed"@,
        }
    }
}

} // verus!
