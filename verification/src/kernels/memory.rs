//! Declarations of memory.

use vstd::prelude::*;
use vstd::string::*;

verus! {

/// Memory management.
pub struct Memory;

impl Memory {
    /// The declaration of the shared buffer of a kernel and of its typed alias.
    pub open spec fn shared_buf_decl_text() -> Seq<char> {
        "extern __shared__ __align__(sizeof(double)) unsigned char shared_buf[];\n"@
            + "auto* shm = reinterpret_cast<Element*>(shared_buf);\n"@
    }

    /// Emit a shared buffer declaration.
    pub fn emit_shared_buf_decl() -> (code: String)
        ensures
            code@ == Self::shared_buf_decl_text(),
    {
        let mut code = String::new();
        code.append("extern __shared__ __align__(sizeof(double)) unsigned char shared_buf[];\n");
        code.append("auto* shm = reinterpret_cast<Element*>(shared_buf);\n");
        assert(code@ =~= Self::shared_buf_decl_text());
        code
    }
}

} // verus!
