//! The engine: the text of a kernel around one dataflow block.

use std::rc::Rc;
use vstd::prelude::*;
use vstd::string::*;

use crate::dataflow::block::ThrillerBlock;
use crate::dataflow::transfer::{all_loadable, synced_loads_text};
use crate::error::{emitted, ThrillerError, ThrillerResult};
use crate::kernels::memory::Memory;
use crate::var::{RegularVar, Var};

pub mod layout;

pub use layout::{BlockLayout, BlockShape};

verus! {

/// The names of `vars`, in order.
pub open spec fn var_names(vars: Seq<Rc<RegularVar>>) -> Seq<Seq<char>> {
    Seq::new(vars.len(), |i: int| vars[i].name())
}

/// The layouts that `layouts` points to.
pub open spec fn layout_values(layouts: Seq<Rc<BlockLayout>>) -> Seq<BlockLayout> {
    Seq::new(layouts.len(), |i: int| *layouts[i])
}

/// The first `k` input parameters of a kernel, separated by commas.
pub open spec fn input_params_text(names: Seq<Seq<char>>, k: nat) -> Seq<char>
    decreases k,
{
    if k == 0 {
        Seq::empty()
    } else {
        input_params_text(names, (k - 1) as nat) + (if k == 1 {
            "const Element* "@
        } else {
            ", const Element* "@
        }) + names[k - 1]
    }
}

/// The first `k` output parameters of a kernel, each behind a comma.
pub open spec fn output_params_text(names: Seq<Seq<char>>, k: nat) -> Seq<char>
    decreases k,
{
    if k == 0 {
        Seq::empty()
    } else {
        output_params_text(names, (k - 1) as nat) + ", Element* "@ + names[k - 1]
    }
}

/// The signature of the kernel `sig` with the given inputs and outputs.
pub open spec fn signature_text(
    sig: Seq<char>,
    inputs: Seq<Seq<char>>,
    outputs: Seq<Seq<char>>,
) -> Seq<char> {
    "template<typename Element, typename KeTraits>\n"@ + "__global__ void "@ + sig + "("@
        + input_params_text(inputs, inputs.len()) + output_params_text(outputs, outputs.len())
        + ")"@
}

/// The headers that generated code needs.
pub open spec fn header_text() -> Seq<char> {
    "#include \"cell/mod.hpp\"\n"@ + "#include \"layout.hpp\"\n"@ + "\n\n"@
}

/// The statement that points the input `name` at the part of it that belongs
/// to the running block, by the block's layout.
pub open spec fn block_pointer_text(name: Seq<char>, layout: BlockLayout) -> Seq<char> {
    "Element* todo = const_cast<Element*>("@ + name + ") + blockIdx.x * "@ + layout.dim3()[0].text()
        + " + blockIdx.y * "@ + layout.dim3()[1].text() + " + blockIdx.z * "@
        + layout.dim3()[2].text() + ";\n"@
}

/// The block pointers of the first `k` inputs.
pub open spec fn block_pointers_text(
    names: Seq<Seq<char>>,
    layouts: Seq<BlockLayout>,
    k: nat,
) -> Seq<char>
    decreases k,
{
    if k == 0 {
        Seq::empty()
    } else {
        block_pointers_text(names, layouts, (k - 1) as nat) + block_pointer_text(
            names[k - 1],
            layouts[k - 1],
        )
    }
}

/// The kernel `sig`: its signature and, in braces, the declaration of shared
/// memory, the block pointers of the inputs and the dataflow code `body`.
pub open spec fn kernel_text(
    sig: Seq<char>,
    inputs: Seq<Seq<char>>,
    outputs: Seq<Seq<char>>,
    layouts: Seq<BlockLayout>,
    body: Seq<char>,
) -> Seq<char> {
    signature_text(sig, inputs, outputs) + "{\n"@ + "// Declare shared memory buffer\n"@
        + Memory::shared_buf_decl_text() + "\n"@ + block_pointers_text(
        inputs,
        layouts,
        inputs.len(),
    ) + "// Emit dataflow code.\n"@ + body + "}\n"@
}

/// The source file of the kernel: the headers, and the kernel in its namespace.
pub open spec fn kernel_file_text(kernel: Seq<char>) -> Seq<char> {
    header_text() + "namespace tiledcuda::kernels {\n\n"@ + kernel
        + "\n}  // namespace tiledcuda::kernels\n"@
}

/// `ThrillerEngine` is the main entry point for the ThrillerFlow framework: it
/// turns one dataflow block into the source text of a kernel.
pub struct ThrillerEngine {
    dataflow_block: ThrillerBlock,
    inputs: Vec<Rc<RegularVar>>,
    outputs: Vec<Rc<RegularVar>>,
    input_blocks: Vec<Rc<BlockLayout>>,
}

impl ThrillerEngine {
    /// The block that the engine emits.
    pub closed spec fn dataflow_block(&self) -> ThrillerBlock {
        self.dataflow_block
    }

    /// The names of the kernel's inputs.
    pub closed spec fn input_names(&self) -> Seq<Seq<char>> {
        var_names(self.inputs@)
    }

    /// The names of the kernel's outputs.
    pub closed spec fn output_names(&self) -> Seq<Seq<char>> {
        var_names(self.outputs@)
    }

    /// The block layouts of the kernel's inputs.
    pub closed spec fn input_blocks(&self) -> Seq<BlockLayout> {
        layout_values(self.input_blocks@)
    }

    /// Create a new ThrillerEngine with the given dataflow block.
    pub fn new(dataflow_block: ThrillerBlock) -> (engine: Self)
        ensures
            engine.dataflow_block() == dataflow_block,
            engine.input_names().len() == 0,
            engine.output_names().len() == 0,
            engine.input_blocks().len() == 0,
    {
        ThrillerEngine {
            dataflow_block,
            inputs: Vec::new(),
            outputs: Vec::new(),
            input_blocks: Vec::new(),
        }
    }

    /// Add inputs into the ThrillerEngine.
    pub fn add_inputs(&mut self, inputs: Vec<Rc<RegularVar>>)
        ensures
            final(self).input_names() == old(self).input_names() + var_names(inputs@),
            final(self).output_names() == old(self).output_names(),
            final(self).input_blocks() == old(self).input_blocks(),
            final(self).dataflow_block() == old(self).dataflow_block(),
    {
        let ghost added = inputs@;
        let mut inputs = inputs;
        self.inputs.append(&mut inputs);
        assert(self.input_names() =~= old(self).input_names() + var_names(added));
    }

    /// Add outputs into the ThrillerEngine.
    pub fn add_outputs(&mut self, outputs: Vec<Rc<RegularVar>>)
        ensures
            final(self).output_names() == old(self).output_names() + var_names(outputs@),
            final(self).input_names() == old(self).input_names(),
            final(self).input_blocks() == old(self).input_blocks(),
            final(self).dataflow_block() == old(self).dataflow_block(),
    {
        let ghost added = outputs@;
        let mut outputs = outputs;
        self.outputs.append(&mut outputs);
        assert(self.output_names() =~= old(self).output_names() + var_names(added));
    }

    /// Add input blocks into the ThrillerEngine.
    pub fn add_input_blocks(&mut self, input_blocks: Vec<Rc<BlockLayout>>)
        ensures
            final(self).input_blocks() == old(self).input_blocks() + layout_values(input_blocks@),
            final(self).input_names() == old(self).input_names(),
            final(self).output_names() == old(self).output_names(),
            final(self).dataflow_block() == old(self).dataflow_block(),
    {
        let ghost added = input_blocks@;
        let mut input_blocks = input_blocks;
        self.input_blocks.append(&mut input_blocks);
        assert(self.input_blocks() =~= old(self).input_blocks() + layout_values(added));
    }

    /// The block that the engine emits.
    pub fn get_dataflow_block(&self) -> (block: &ThrillerBlock)
        ensures
            *block == self.dataflow_block(),
    {
        &self.dataflow_block
    }

    /// The number of inputs and the number of their block layouts.
    pub fn input_counts(&self) -> (counts: (usize, usize))
        ensures
            counts.0 == self.input_names().len(),
            counts.1 == self.input_blocks().len(),
    {
        (self.inputs.len(), self.input_blocks.len())
    }

    /// Emit the function signature for the given dataflow block.
    pub fn emit_function_signature(&self, sig: &str) -> (r: ThrillerResult<String>)
        ensures
            emitted(r, Ok(signature_text(sig@, self.input_names(), self.output_names()))),
    {
        let ghost ins = self.input_names();
        let ghost outs = self.output_names();
        let mut code = String::new();
        code.append("template<typename Element, typename KeTraits>\n");
        code.append("__global__ void ");
        code.append(sig);
        code.append("(");
        let ghost head = code@;
        let mut i: usize = 0;
        assert(code@ =~= head + input_params_text(ins, 0));
        while i < self.inputs.len()
            invariant
                i <= self.inputs@.len(),
                ins == var_names(self.inputs@),
                code@ == head + input_params_text(ins, i as nat),
            decreases self.inputs.len() - i,
        {
            if i != 0 {
                code.append(", const Element* ");
            } else {
                code.append("const Element* ");
            }
            code.append(self.inputs[i].get_name().as_str());
            i = i + 1;
            assert(code@ =~= head + input_params_text(ins, i as nat));
        }
        let ghost mid = code@;
        let mut k: usize = 0;
        assert(code@ =~= mid + output_params_text(outs, 0));
        while k < self.outputs.len()
            invariant
                k <= self.outputs@.len(),
                outs == var_names(self.outputs@),
                code@ == mid + output_params_text(outs, k as nat),
            decreases self.outputs.len() - k,
        {
            code.append(", Element* ");
            code.append(self.outputs[k].get_name().as_str());
            k = k + 1;
            assert(code@ =~= mid + output_params_text(outs, k as nat));
        }
        code.append(")");
        assert(code@ =~= signature_text(sig@, ins, outs));
        Ok(code)
    }

    /// Emit include headers for the dataflow code.
    pub fn emit_header(&self) -> (r: ThrillerResult<String>)
        ensures
            emitted(r, Ok(header_text())),
    {
        let mut code = String::new();
        code.append("#include \"cell/mod.hpp\"\n");
        code.append("#include \"layout.hpp\"\n");
        code.append("\n\n");
        assert(code@ =~= header_text());
        Ok(code)
    }

    /// What `emit_dataflow` returns for the kernel `sig`: the kernel around the
    /// code of the dataflow block, or the error of that block.
    pub open spec fn dataflow_text(&self, sig: Seq<char>) -> Result<Seq<char>, ThrillerError> {
        match self.dataflow_block().block_text() {
            Err(e) => Err(e),
            Ok(body) => Ok(
                kernel_text(sig, self.input_names(), self.output_names(), self.input_blocks(), body),
            ),
        }
    }

    /// Generate the ThrillerFlow code for the given dataflow block: the kernel
    /// `sig`. Every input has to have its block layout.
    pub fn emit_dataflow(&self, sig: &str) -> (r: ThrillerResult<String>)
        requires
            self.input_blocks().len() == self.input_names().len(),
            self.dataflow_block().emittable(),
        ensures
            emitted(r, self.dataflow_text(sig@)),
    {
        let ghost ins = self.input_names();
        let ghost layouts = self.input_blocks();
        let mut code = match self.emit_function_signature(sig) {
            Ok(code) => code,
            Err(e) => {
                return Err(e);
            },
        };
        code.append("{\n");
        code.append("// Declare shared memory buffer\n");
        code.append(Memory::emit_shared_buf_decl().as_str());
        code.append("\n");
        let ghost head = code@;
        let mut i: usize = 0;
        assert(code@ =~= head + block_pointers_text(ins, layouts, 0));
        while i < self.inputs.len()
            invariant
                i <= self.inputs@.len() == self.input_blocks@.len(),
                ins == var_names(self.inputs@),
                layouts == layout_values(self.input_blocks@),
                code@ == head + block_pointers_text(ins, layouts, i as nat),
            decreases self.inputs.len() - i,
        {
            let layout = &self.input_blocks[i];
            let ghost held = code@;
            code.append("Element* todo = const_cast<Element*>(");
            code.append(self.inputs[i].get_name().as_str());
            code.append(") + blockIdx.x * ");
            code.append(layout.get_dim_x().as_str());
            code.append(" + blockIdx.y * ");
            code.append(layout.get_dim_y().as_str());
            code.append(" + blockIdx.z * ");
            code.append(layout.get_dim_z().as_str());
            code.append(";\n");
            assert(code@ =~= held + block_pointer_text(ins[i as int], layouts[i as int]));
            i = i + 1;
        }
        let body = match self.dataflow_block.emit_block() {
            Ok(body) => body,
            Err(e) => {
                return Err(e);
            },
        };
        code.append("// Emit dataflow code.\n");
        code.append(body.as_str());
        code.append("}\n");
        assert(code@ =~= kernel_text(
            sig@,
            self.input_names(),
            self.output_names(),
            self.input_blocks(),
            body@,
        ));
        Ok(code)
    }

    /// Generate the code that loads the inputs of the dataflow block, with the
    /// synchronization that the loads need.
    pub fn dataflow_generate(&self) -> (r: ThrillerResult<String>)
        requires
            all_loadable(self.dataflow_block().inputs()),
        ensures
            emitted(r, Ok(synced_loads_text(self.dataflow_block().inputs()))),
    {
        self.dataflow_block.emit_load()
    }

    /// What `emit_kernel_file` returns for the kernel `sig`.
    pub open spec fn kernel_file(&self, sig: Seq<char>) -> Result<Seq<char>, ThrillerError> {
        match self.dataflow_text(sig) {
            Err(e) => Err(e),
            Ok(kernel) => Ok(kernel_file_text(kernel)),
        }
    }

    /// The source file of the kernel `sig`: what is persisted for it.
    pub fn emit_kernel_file(&self, sig: &str) -> (r: ThrillerResult<String>)
        requires
            self.input_blocks().len() == self.input_names().len(),
            self.dataflow_block().emittable(),
        ensures
            emitted(r, self.kernel_file(sig@)),
    {
        let mut code = match self.emit_header() {
            Ok(code) => code,
            Err(e) => {
                return Err(e);
            },
        };
        let kernel = match self.emit_dataflow(sig) {
            Ok(kernel) => kernel,
            Err(e) => {
                return Err(e);
            },
        };
        code.append("namespace tiledcuda::kernels {\n\n");
        code.append(kernel.as_str());
        code.append("\n}  // namespace tiledcuda::kernels\n");
        assert(code@ =~= kernel_file_text(kernel@));
        Ok(code)
    }
}

} // verus!
