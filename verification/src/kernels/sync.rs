//! Synchronization primitives.

use vstd::prelude::*;
use vstd::string::*;

verus! {

/// Synchronization primitives.
pub struct Sync;

impl Sync {
    /// The barrier on which all lanes of a block wait.
    pub open spec fn sync_text() -> Seq<char> {
        "__syncthreads();\n"@
    }

    /// The commit of the asynchronous copies issued so far.
    pub open spec fn copy_async_text() -> Seq<char> {
        "__copy_async();\n"@
    }

    /// Emit a synchronization primitive.
    pub fn emit_sync() -> (code: String)
        ensures
            code@ == Self::sync_text(),
    {
        String::from_str("__syncthreads();\n")
    }

    /// Emit a copy async primitive.
    pub fn emit_copy_async() -> (code: String)
        ensures
            code@ == Self::copy_async_text(),
    {
        String::from_str("__copy_async();\n")
    }
}

} // verus!
