//! Commands that need no opened application state: initializing a fresh
//! working directory and migrating an existing one. Their execution touches
//! the filesystem and lives outside the verified core; these types carry
//! the request.

use vstd::prelude::*;

verus! {

/// Initialize the current directory as a working directory.
#[derive(Debug, Clone, Copy, PartialEq, Eq, Structural)]
pub struct InitWACMD;

impl InitWACMD {
    pub fn new() -> (r: Self)
        ensures
            r == InitWACMD,
    {
        InitWACMD
    }
}

/// Migrate the current working directory, creating any missing sub-store.
#[derive(Debug, Clone, Copy, PartialEq, Eq, Structural)]
pub struct UpdateWAPCMD;

impl UpdateWAPCMD {
    pub fn new() -> (r: Self)
        ensures
            r == UpdateWAPCMD,
    {
        UpdateWAPCMD
    }
}

} // verus!
