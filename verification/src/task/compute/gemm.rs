//! Matrix multiplication.

use std::rc::Rc;
use vstd::prelude::*;
use vstd::string::*;

use crate::access::{matrix_rows, offset_entries, pointees, AccessMap};
use crate::dataflow::node::{NodeRef, ThrillerNode};
use crate::error::{ThrillerError, ThrillerResult};
use crate::task::Task;
use crate::text::{decimal, push_decimal};
use crate::var::{IterationVar, Var};

verus! {

/// One bracketed index of a GEMM operand: coefficient times variable plus offset.
pub open spec fn gemm_term(coef: usize, name: Seq<char>, offset: usize) -> Seq<char> {
    "["@ + decimal(coef as nat) + " * "@ + name + " + "@ + decimal(offset as nat) + "]"@
}

/// The indices that the first `n` columns of `row` give: one for each
/// coefficient that is not zero.
pub open spec fn gemm_row_text(
    row: Seq<usize>,
    ivars: Seq<IterationVar>,
    offset: usize,
    n: nat,
) -> Seq<char>
    decreases n,
{
    if n == 0 {
        Seq::empty()
    } else {
        gemm_row_text(row, ivars, offset, (n - 1) as nat) + (if row[n - 1] != 0 {
            gemm_term(row[n - 1], ivars[n - 1].name(), offset)
        } else {
            Seq::empty()
        })
    }
}

/// The indices that the first `m` rows of `rows` give; row `j` takes its offset
/// from entry `j` of `offsets`.
pub open spec fn gemm_matrix_text(
    rows: Seq<Seq<usize>>,
    ivars: Seq<IterationVar>,
    offsets: Seq<usize>,
    m: nat,
) -> Seq<char>
    decreases m,
{
    if m == 0 {
        Seq::empty()
    } else {
        gemm_matrix_text(rows, ivars, offsets, (m - 1) as nat) + gemm_row_text(
            rows[m - 1],
            ivars,
            offsets[m - 1],
            rows[m - 1].len(),
        )
    }
}

/// Whether the GEMM indices of `map` can be written: every coefficient that is
/// not zero belongs to one of the first three matrices, has an iteration
/// variable for its column and, in the first offset vector, an offset for its row.
pub open spec fn gemm_ok(map: AccessMap) -> bool {
    forall|i: int, j: int, c: int|
        0 <= i < map.matrices().len() && 0 <= j < map.matrices()[i].len() && 0 <= c
            < map.matrices()[i][j].len() && #[trigger] map.matrices()[i][j][c] != 0 ==> i < 3 && c
            < map.ivars().len() && 0 < map.offsets().len() && j < map.offsets()[0].len()
}

/// The indices of operand `i` of a GEMM over `map`: those of matrix `i`, with the
/// offsets of the first offset vector; none where `map` has no such matrix.
pub open spec fn gemm_operand_text(map: AccessMap, i: int) -> Seq<char> {
    if 0 <= i < map.matrices().len() {
        gemm_matrix_text(
            map.matrices()[i],
            map.ivars(),
            if map.offsets().len() > 0 {
                map.offsets()[0]
            } else {
                Seq::empty()
            },
            map.matrices()[i].len(),
        )
    } else {
        Seq::empty()
    }
}

/// The GEMM call on the operands `a`, `b` and `c`, each with its indices.
pub open spec fn gemm_call_text(a: Seq<char>, b: Seq<char>, c: Seq<char>, map: AccessMap) -> Seq<
    char,
> {
    "cute::gemm("@ + a + gemm_operand_text(map, 0) + ", "@ + b + gemm_operand_text(map, 1) + ", "@
        + c + gemm_operand_text(map, 2) + ");\n"@
}

/// Whether the coefficient in row `j`, column `c` of matrix `i` can be written
/// as a GEMM index, or is zero.
pub open spec fn gemm_cell_ok(map: AccessMap, i: int, j: int, c: int) -> bool {
    map.matrices()[i][j][c] != 0 ==> i < 3 && c < map.ivars().len() && 0 < map.offsets().len() && j
        < map.offsets()[0].len()
}

/// Whether the GEMM indices of `map` can be written.
fn gemm_check(map: &AccessMap) -> (ok: bool)
    ensures
        ok == gemm_ok(*map),
{
    let ms = map.get_access_matrixs();
    let os = map.get_access_offsets();
    let vs = map.get_iter_vars();
    let rows0: usize = if os.len() > 0 {
        os[0].0.len()
    } else {
        0
    };
    assert(os@.len() > 0 ==> map.offsets()[0] == os@[0].entries());
    let mut i: usize = 0;
    while i < ms.len()
        invariant
            i <= ms@.len(),
            matrix_rows(ms@) == map.matrices(),
            offset_entries(os@) == map.offsets(),
            pointees(vs@) == map.ivars(),
            os@.len() > 0 ==> rows0 == map.offsets()[0].len(),
            os@.len() == 0 ==> rows0 == 0,
            forall|a: int, j: int, c: int|
                0 <= a < i && 0 <= j < map.matrices()[a].len() && 0 <= c < map.matrices()[a][j].len()
                    && #[trigger] map.matrices()[a][j][c] != 0 ==> a < 3 && c < map.ivars().len()
                    && 0 < map.offsets().len() && j < map.offsets()[0].len(),
        decreases ms.len() - i,
    {
        let m = &ms[i].0;
        assert(map.matrices()[i as int] == ms@[i as int].rows());
        let mut j: usize = 0;
        while j < m.len()
            invariant
                j <= m@.len(),
                i < ms@.len() == map.matrices().len(),
                m == &ms@[i as int].0,
                map.matrices()[i as int] == ms@[i as int].rows(),
                offset_entries(os@) == map.offsets(),
                pointees(vs@) == map.ivars(),
                os@.len() > 0 ==> rows0 == map.offsets()[0].len(),
                os@.len() == 0 ==> rows0 == 0,
                forall|b: int, c: int|
                    0 <= b < j && 0 <= c < map.matrices()[i as int][b].len()
                        && #[trigger] map.matrices()[i as int][b][c] != 0 ==> i < 3 && c
                        < map.ivars().len() && 0 < map.offsets().len() && b
                        < map.offsets()[0].len(),
            decreases m.len() - j,
        {
            let row = &m[j];
            assert(map.matrices()[i as int][j as int] == row@);
            let mut c: usize = 0;
            while c < row.len()
                invariant
                    c <= row@.len(),
                    i < map.matrices().len(),
                    j < map.matrices()[i as int].len(),
                    map.matrices()[i as int][j as int] == row@,
                    offset_entries(os@) == map.offsets(),
                    pointees(vs@) == map.ivars(),
                    os@.len() > 0 ==> rows0 == map.offsets()[0].len(),
                    os@.len() == 0 ==> rows0 == 0,
                    forall|d: int|
                        0 <= d < c && #[trigger] row@[d] != 0 ==> i < 3 && d < map.ivars().len()
                            && 0 < map.offsets().len() && j < map.offsets()[0].len(),
                decreases row.len() - c,
            {
                if row[c] != 0 && !(i < 3 && c < vs.len() && j < rows0) {
                    assert(map.matrices()[i as int][j as int][c as int] != 0);
                    assert(!gemm_ok(*map));
                    return false;
                }
                c = c + 1;
            }
            j = j + 1;
        }
        i = i + 1;
    }
    true
}

/// Appends to `out` the indices of operand `i` of a GEMM over `map`.
fn push_gemm_operand(out: &mut String, map: &AccessMap, i: usize)
    requires
        gemm_ok(*map),
    ensures
        final(out)@ == old(out)@ + gemm_operand_text(*map, i as int),
{
    let ms = map.get_access_matrixs();
    let os = map.get_access_offsets();
    let vs = map.get_iter_vars();
    if i >= ms.len() {
        assert(out@ =~= old(out)@ + gemm_operand_text(*map, i as int));
        return ;
    }
    let m = &ms[i].0;
    assert(map.matrices()[i as int] == ms@[i as int].rows());
    assert(os@.len() > 0 ==> map.offsets()[0] == os@[0].entries());
    let ghost rows = map.matrices()[i as int];
    let ghost ivars = map.ivars();
    let ghost offs = if map.offsets().len() > 0 {
        map.offsets()[0]
    } else {
        Seq::<usize>::empty()
    };
    let mut j: usize = 0;
    assert(out@ =~= old(out)@ + gemm_matrix_text(rows, ivars, offs, 0));
    while j < m.len()
        invariant
            j <= m@.len(),
            i < ms@.len() == map.matrices().len(),
            gemm_ok(*map),
            m == &ms@[i as int].0,
            rows == map.matrices()[i as int],
            rows == ms@[i as int].rows(),
            ivars == map.ivars(),
            pointees(vs@) == ivars,
            offset_entries(os@) == map.offsets(),
            offs == (if map.offsets().len() > 0 {
                map.offsets()[0]
            } else {
                Seq::<usize>::empty()
            }),
            out@ == old(out)@ + gemm_matrix_text(rows, ivars, offs, j as nat),
        decreases m.len() - j,
    {
        let row = &m[j];
        assert(rows[j as int] == row@);
        let ghost before = out@;
        let mut c: usize = 0;
        assert(out@ =~= before + gemm_row_text(row@, ivars, offs[j as int], 0));
        while c < row.len()
            invariant
                c <= row@.len(),
                i < ms@.len() == map.matrices().len(),
                j < rows.len(),
                gemm_ok(*map),
                rows == map.matrices()[i as int],
                rows[j as int] == row@,
                ivars == map.ivars(),
                pointees(vs@) == ivars,
                offset_entries(os@) == map.offsets(),
                offs == (if map.offsets().len() > 0 {
                    map.offsets()[0]
                } else {
                    Seq::<usize>::empty()
                }),
                out@ == before + gemm_row_text(row@, ivars, offs[j as int], c as nat),
            decreases row.len() - c,
        {
            let coef = row[c];
            let ghost held = out@;
            if coef != 0 {
                assert(map.matrices()[i as int][j as int][c as int] != 0);
                assert(map.offsets()[0] == os@[0].entries());
                let offset = os[0].0[j];
                out.append("[");
                push_decimal(out, coef);
                out.append(" * ");
                out.append(vs[c].get_name().as_str());
                out.append(" + ");
                push_decimal(out, offset);
                out.append("]");
                assert(out@ =~= held + gemm_term(coef, ivars[c as int].name(), offs[j as int]));
            }
            c = c + 1;
            assert(out@ =~= before + gemm_row_text(row@, ivars, offs[j as int], c as nat));
        }
        j = j + 1;
        assert(out@ =~= old(out)@ + gemm_matrix_text(rows, ivars, offs, j as nat));
    }
}

/// Appends to `out` the GEMM call on the operands `a`, `b` and `c`.
fn push_gemm_call(out: &mut String, a: &str, b: &str, c: &str, map: &AccessMap)
    requires
        gemm_ok(*map),
    ensures
        final(out)@ == old(out)@ + gemm_call_text(a@, b@, c@, *map),
{
    out.append("cute::gemm(");
    out.append(a);
    push_gemm_operand(out, map, 0);
    out.append(", ");
    out.append(b);
    push_gemm_operand(out, map, 1);
    out.append(", ");
    out.append(c);
    push_gemm_operand(out, map, 2);
    out.append(");\n");
    assert(out@ =~= old(out)@ + gemm_call_text(a@, b@, c@, *map));
}

/// What `gen_gemm` returns for `map`: the GEMM call with the indices alone, or
/// the error that its indices cannot be written.
pub open spec fn gen_gemm_text(map: AccessMap) -> Result<Seq<char>, ThrillerError> {
    if gemm_ok(map) {
        Ok(gemm_call_text(Seq::empty(), Seq::empty(), Seq::empty(), map))
    } else {
        Err(ThrillerError::InvalidAccessPattern)
    }
}

/// The GEMM call over `access_map` with the indices of its three operands and
/// without their names.
pub fn gen_gemm(access_map: &AccessMap) -> (r: ThrillerResult<String>)
    ensures
        crate::error::emitted(r, gen_gemm_text(*access_map)),
{
    if !gemm_check(access_map) {
        return Err(ThrillerError::InvalidAccessPattern);
    }
    let mut code = String::new();
    let ghost none = Seq::<char>::empty();
    push_gemm_call(&mut code, "", "", "", access_map);
    proof {
        reveal_strlit("");
        assert(""@ =~= none);
        assert(code@ =~= gemm_call_text(none, none, none, *access_map));
    }
    Ok(code)
}

/// The references of `nodes`, in order.
pub open spec fn ref_names(refs: Seq<NodeRef>) -> Seq<Seq<char>> {
    Seq::new(refs.len(), |i: int| refs[i].name@)
}

/// Gemm is a task that performs matrix multiplication.
pub struct Gemm {
    prevs: Vec<NodeRef>,
    next: NodeRef,
    access_map: Rc<AccessMap>,
    id: usize,
}

impl Gemm {
    /// The names of the nodes that are read, in order.
    pub closed spec fn prev_names(&self) -> Seq<Seq<char>> {
        ref_names(self.prevs@)
    }

    /// The identifiers of the nodes that are read, in order.
    pub closed spec fn prev_ids(&self) -> Seq<usize> {
        Seq::new(self.prevs@.len(), |i: int| self.prevs@[i].id)
    }

    /// The name of the node that is written.
    pub closed spec fn next_name(&self) -> Seq<char> {
        self.next.name@
    }

    /// The identifier of the node that is written.
    pub closed spec fn next_id(&self) -> usize {
        self.next.id
    }

    /// The access map.
    pub closed spec fn access_map(&self) -> AccessMap {
        *self.access_map
    }

    /// The task's identifier.
    pub closed spec fn id(&self) -> usize {
        self.id
    }

    /// Create a new GEMM task that reads the nodes `prevs` and writes the node `next`.
    pub fn new(
        prevs: Vec<&ThrillerNode>,
        next: &ThrillerNode,
        access_map: Rc<AccessMap>,
        id: usize,
    ) -> (task: Self)
        ensures
            task.prev_names() == Seq::new(prevs@.len(), |i: int| prevs@[i].node_name()),
            task.prev_ids() == Seq::new(prevs@.len(), |i: int| prevs@[i].id()),
            task.next_name() == next.node_name(),
            task.next_id() == next.id(),
            task.access_map() == *access_map,
            task.id() == id,
    {
        let mut refs: Vec<NodeRef> = Vec::new();
        let mut i: usize = 0;
        while i < prevs.len()
            invariant
                i <= prevs@.len(),
                refs@.len() == i,
                forall|k: int|
                    0 <= k < i ==> (#[trigger] refs@[k]).name@ == prevs@[k].node_name() && refs@[k].id
                        == prevs@[k].id(),
            decreases prevs.len() - i,
        {
            refs.push(prevs[i].node_ref());
            i = i + 1;
        }
        let task = Gemm { prevs: refs, next: next.node_ref(), access_map, id };
        assert(task.prev_names() =~= Seq::new(prevs@.len(), |i: int| prevs@[i].node_name()));
        assert(task.prev_ids() =~= Seq::new(prevs@.len(), |i: int| prevs@[i].id()));
        task
    }
}

impl Task for Gemm {
    open spec fn ready(&self) -> bool {
        true
    }

    /// A GEMM reads exactly two nodes; its call names them and the node that it
    /// writes, each with its indices.
    open spec fn emit_text(&self) -> Result<Seq<char>, ThrillerError> {
        if self.prev_names().len() != 2 {
            Err(ThrillerError::WrongInputsNum)
        } else if !gemm_ok(self.access_map()) {
            Err(ThrillerError::InvalidAccessPattern)
        } else {
            Ok(
                gemm_call_text(
                    self.prev_names()[0],
                    self.prev_names()[1],
                    self.next_name(),
                    self.access_map(),
                ),
            )
        }
    }

    open spec fn name_text(&self) -> Seq<char> {
        "Gemm_"@ + decimal(self.id() as nat)
    }

    fn emit(&self) -> (r: ThrillerResult<String>)
        ensures
            self.prev_names().len() != 2 ==> r == Err::<String, ThrillerError>(
                ThrillerError::WrongInputsNum,
            ),
    {
        if self.prevs.len() != 2 {
            return Err(ThrillerError::WrongInputsNum);
        }
        if !gemm_check(&self.access_map) {
            return Err(ThrillerError::InvalidAccessPattern);
        }
        let mut code = String::new();
        push_gemm_call(
            &mut code,
            self.prevs[0].name.as_str(),
            self.prevs[1].name.as_str(),
            self.next.name.as_str(),
            &self.access_map,
        );
        assert(code@ =~= self.emit_text()->Ok_0);
        Ok(code)
    }

    fn get_name(&self) -> (name: String) {
        let mut name = String::from_str("Gemm_");
        push_decimal(&mut name, self.id);
        name
    }
}

} // verus!
