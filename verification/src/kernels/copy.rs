//! Copy primitives.

use vstd::prelude::*;
use vstd::string::*;

use crate::text::{decimal, push_decimal};

verus! {

/// Copy Primitive.
pub struct Copy;

impl Copy {
    /// The copy of tile `src_index` of `src` in global memory to tile `dst_index`
    /// of `dst` in shared memory.
    pub open spec fn copy_2d_tile_g2s_text(
        src: Seq<char>,
        src_index: usize,
        dst: Seq<char>,
        dst_index: usize,
    ) -> Seq<char> {
        "copy_2d_tile_g2s("@ + src + "["@ + decimal(src_index as nat) + "], "@ + dst + "["@
            + decimal(dst_index as nat) + "])"@
    }

    /// Emit a copy from a global buffer to a shared buffer.
    pub fn emit_copy_2d_tile_g2s(src: &str, src_index: usize, dst: &str, dst_index: usize) -> (code:
        String)
        ensures
            code@ == Self::copy_2d_tile_g2s_text(src@, src_index, dst@, dst_index),
    {
        let mut code = String::from_str("copy_2d_tile_g2s(");
        code.append(src);
        code.append("[");
        push_decimal(&mut code, src_index);
        code.append("], ");
        code.append(dst);
        code.append("[");
        push_decimal(&mut code, dst_index);
        code.append("])");
        assert(code@ =~= Self::copy_2d_tile_g2s_text(src@, src_index, dst@, dst_index));
        code
    }
}

} // verus!
