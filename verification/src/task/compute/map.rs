//! Type casts.

use std::rc::Rc;
use vstd::prelude::*;
use vstd::string::*;

use crate::buffer::Buffer;
use crate::dtype::DataType;
use crate::error::{ThrillerError, ThrillerResult};
use crate::shape::same_shape;
use crate::task::Task;
use crate::text::{decimal, push_decimal};

verus! {

/// Convert a variable to a different type.
pub struct Convert {
    src_buf: Rc<Buffer>,
    dst_buf: Rc<Buffer>,
    src_type: DataType,
    dst_type: DataType,
    id: usize,
}

impl Convert {
    /// The buffer that is read.
    pub closed spec fn src_buf(&self) -> Buffer {
        *self.src_buf
    }

    /// The buffer that is written.
    pub closed spec fn dst_buf(&self) -> Buffer {
        *self.dst_buf
    }

    /// The element type that is read.
    pub closed spec fn src_type(&self) -> DataType {
        self.src_type
    }

    /// The element type that is written.
    pub closed spec fn dst_type(&self) -> DataType {
        self.dst_type
    }

    /// The task's identifier.
    pub closed spec fn id(&self) -> usize {
        self.id
    }

    /// Whether a cast can go from `src` to `dst`: the two buffers lie in the same
    /// kind of storage and have the same shape.
    pub open spec fn compatible(src: Buffer, dst: Buffer) -> bool {
        src.typing() == dst.typing() && same_shape(src.shape(), dst.shape())
    }

    /// Whether a cast can go from `src` to `dst`.
    pub fn check_compatible(src: &Buffer, dst: &Buffer) -> (b: bool)
        ensures
            b == Self::compatible(*src, *dst),
    {
        *src.get_typing() == *dst.get_typing() && src.get_shape().same_as(dst.get_shape())
    }

    /// Create a new `Convert` task.
    pub fn new(
        src_buf: Rc<Buffer>,
        dst_buf: Rc<Buffer>,
        src_type: DataType,
        dst_type: DataType,
        id: usize,
    ) -> (task: Self)
        requires
            Self::compatible(*src_buf, *dst_buf),
        ensures
            task.src_buf() == *src_buf,
            task.dst_buf() == *dst_buf,
            task.src_type() == src_type,
            task.dst_type() == dst_type,
            task.id() == id,
    {
        Convert { src_buf, dst_buf, src_type, dst_type, id }
    }
}

impl Task for Convert {
    open spec fn ready(&self) -> bool {
        true
    }

    open spec fn emit_text(&self) -> Result<Seq<char>, ThrillerError> {
        Ok(
            "cast_"@ + self.src_type().text() + "_to_"@ + self.dst_type().text() + "("@
                + self.src_buf().name() + ", "@ + self.dst_buf().name() + ");\n"@,
        )
    }

    open spec fn name_text(&self) -> Seq<char> {
        "Convert_"@ + decimal(self.id() as nat)
    }

    fn emit(&self) -> (r: ThrillerResult<String>) {
        let mut code = String::from_str("cast_");
        code.append(self.src_type.to_string().as_str());
        code.append("_to_");
        code.append(self.dst_type.to_string().as_str());
        code.append("(");
        code.append(self.src_buf.get_name().as_str());
        code.append(", ");
        code.append(self.dst_buf.get_name().as_str());
        code.append(");\n");
        assert(code@ =~= self.emit_text()->Ok_0);
        Ok(code)
    }

    fn get_name(&self) -> (name: String) {
        let mut name = String::from_str("Convert_");
        push_decimal(&mut name, self.id);
        name
    }
}

} // verus!
