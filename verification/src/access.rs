//! Access maps: the loop nest that a set of iteration variables stands for, and
//! the index expressions by which those loops reach into buffers.

use std::rc::Rc;
use vstd::prelude::*;
use vstd::string::*;

use crate::error::{ThrillerError, ThrillerResult};
use crate::text::{
    count_char, decimal, free_of, indent_lines, lemma_count_add, lemma_count_free,
    lemma_decimal_free, lemma_indent_free, lemma_lines_free, lemma_spaces_free, lines_of,
    push_char, push_decimal, push_indent, push_indented, spaces, split_lines, views,
};
use crate::var::IterationBound;
use crate::var::{IterationVar, Var};

verus! {

/// Coefficients of one buffer's index expressions: row `r`, column `c` is the
/// factor by which iteration variable `c` enters the index of dimension `r`.
pub struct AccessMatrix(pub Vec<Vec<usize>>);

/// Offsets of one buffer's index expressions, one per dimension.
pub struct AccessOffset(pub Vec<usize>);

impl AccessMatrix {
    /// The rows of the matrix.
    pub open spec fn rows(&self) -> Seq<Seq<usize>> {
        Seq::new(self.0@.len(), |r: int| self.0@[r]@)
    }
}

impl AccessOffset {
    /// The offsets, by dimension.
    pub open spec fn entries(&self) -> Seq<usize> {
        self.0@
    }
}

/// A multi-dimensional access pattern: the iteration variables of a loop nest and,
/// for each buffer that takes part, the matrix and offsets of its index expressions.
pub struct AccessMap {
    loop_depth: usize,
    access_dims: Vec<usize>,
    access_matrixs: Vec<AccessMatrix>,
    offset: Vec<AccessOffset>,
    ivars: Vec<Rc<IterationVar>>,
}

/// The rows of each matrix of `ms`.
pub open spec fn matrix_rows(ms: Seq<AccessMatrix>) -> Seq<Seq<Seq<usize>>> {
    Seq::new(ms.len(), |i: int| ms[i].rows())
}

/// The entries of each offset vector of `os`.
pub open spec fn offset_entries(os: Seq<AccessOffset>) -> Seq<Seq<usize>> {
    Seq::new(os.len(), |i: int| os[i].entries())
}

/// The identifiers of `vars`, in order.
pub open spec fn var_ids(vars: Seq<IterationVar>) -> Seq<usize> {
    Seq::new(vars.len(), |i: int| vars[i].id())
}

/// The variables that `vs` points to.
pub open spec fn pointees(vs: Seq<Rc<IterationVar>>) -> Seq<IterationVar> {
    Seq::new(vs.len(), |i: int| *vs[i])
}

impl AccessMap {
    /// The declared number of nested loops.
    pub closed spec fn depth(&self) -> nat {
        self.loop_depth as nat
    }

    /// The declared sizes of the loop dimensions.
    pub closed spec fn dims(&self) -> Seq<usize> {
        self.access_dims@
    }

    /// The matrices, one per buffer, each by its rows.
    pub closed spec fn matrices(&self) -> Seq<Seq<Seq<usize>>> {
        matrix_rows(self.access_matrixs@)
    }

    /// The offset vectors, one per buffer.
    pub closed spec fn offsets(&self) -> Seq<Seq<usize>> {
        offset_entries(self.offset@)
    }

    /// The iteration variables, outermost first.
    pub closed spec fn ivars(&self) -> Seq<IterationVar> {
        pointees(self.ivars@)
    }

    /// An access map of the given depth and dimensions, without variables,
    /// matrices or offsets.
    pub fn new(loop_depth: usize, access_dims: Vec<usize>) -> (map: Self)
        ensures
            map.depth() == loop_depth,
            map.dims() == access_dims@,
            map.matrices().len() == 0,
            map.offsets().len() == 0,
            map.ivars().len() == 0,
    {
        AccessMap {
            loop_depth,
            access_dims,
            access_matrixs: Vec::new(),
            offset: Vec::new(),
            ivars: Vec::new(),
        }
    }

    /// Add iter var to access map: it becomes the innermost loop.
    pub fn add_iter_var(&mut self, iter_var: Rc<IterationVar>)
        ensures
            final(self).ivars() == old(self).ivars().push(*iter_var),
            final(self).depth() == old(self).depth(),
            final(self).dims() == old(self).dims(),
            final(self).matrices() == old(self).matrices(),
            final(self).offsets() == old(self).offsets(),
    {
        self.ivars.push(iter_var);
        assert(self.ivars() =~= old(self).ivars().push(*iter_var));
    }

    /// Add iter vars to access map, in their order.
    pub fn add_iter_vars(&mut self, iter_vars: Vec<Rc<IterationVar>>)
        ensures
            final(self).ivars() == old(self).ivars() + pointees(iter_vars@),
            final(self).depth() == old(self).depth(),
            final(self).dims() == old(self).dims(),
            final(self).matrices() == old(self).matrices(),
            final(self).offsets() == old(self).offsets(),
    {
        let ghost added = iter_vars@;
        let mut iter_vars = iter_vars;
        self.ivars.append(&mut iter_vars);
        assert(self.ivars() =~= old(self).ivars() + pointees(added));
    }

    /// Get iter vars in access map.
    pub fn get_iter_vars(&self) -> (vars: &Vec<Rc<IterationVar>>)
        ensures
            pointees(vars@) == self.ivars(),
    {
        &self.ivars
    }

    /// Add an access matrix to the access map.
    pub fn add_access_matrix(&mut self, access_matrix: AccessMatrix)
        ensures
            final(self).matrices() == old(self).matrices().push(access_matrix.rows()),
            final(self).depth() == old(self).depth(),
            final(self).dims() == old(self).dims(),
            final(self).offsets() == old(self).offsets(),
            final(self).ivars() == old(self).ivars(),
    {
        self.access_matrixs.push(access_matrix);
        assert(self.matrices() =~= old(self).matrices().push(access_matrix.rows()));
    }

    /// Add access matrixs to the access map, in their order.
    pub fn add_access_matrixs(&mut self, access_matrixs: Vec<AccessMatrix>)
        ensures
            final(self).matrices() == old(self).matrices() + matrix_rows(access_matrixs@),
            final(self).depth() == old(self).depth(),
            final(self).dims() == old(self).dims(),
            final(self).offsets() == old(self).offsets(),
            final(self).ivars() == old(self).ivars(),
    {
        let ghost added = access_matrixs@;
        let mut access_matrixs = access_matrixs;
        self.access_matrixs.append(&mut access_matrixs);
        assert(self.matrices() =~= old(self).matrices() + matrix_rows(added));
    }

    /// Add an access offset to the access map.
    pub fn add_access_offset(&mut self, access_offset: AccessOffset)
        ensures
            final(self).offsets() == old(self).offsets().push(access_offset.entries()),
            final(self).depth() == old(self).depth(),
            final(self).dims() == old(self).dims(),
            final(self).matrices() == old(self).matrices(),
            final(self).ivars() == old(self).ivars(),
    {
        self.offset.push(access_offset);
        assert(self.offsets() =~= old(self).offsets().push(access_offset.entries()));
    }

    /// Add access offsets to the access map, in their order.
    pub fn add_access_offsets(&mut self, access_offsets: Vec<AccessOffset>)
        ensures
            final(self).offsets() == old(self).offsets() + offset_entries(access_offsets@),
            final(self).depth() == old(self).depth(),
            final(self).dims() == old(self).dims(),
            final(self).matrices() == old(self).matrices(),
            final(self).ivars() == old(self).ivars(),
    {
        let ghost added = access_offsets@;
        let mut access_offsets = access_offsets;
        self.offset.append(&mut access_offsets);
        assert(self.offsets() =~= old(self).offsets() + offset_entries(added));
    }

    /// Get access matrixs in access map.
    pub fn get_access_matrixs(&self) -> (matrixs: &Vec<AccessMatrix>)
        ensures
            matrix_rows(matrixs@) == self.matrices(),
    {
        &self.access_matrixs
    }

    /// Get access offsets in access map.
    pub fn get_access_offsets(&self) -> (offsets: &Vec<AccessOffset>)
        ensures
            offset_entries(offsets@) == self.offsets(),
    {
        &self.offset
    }

    /// Get Loop depth of AccessMap
    pub fn get_loop_depth(&self) -> (depth: usize)
        ensures
            depth == self.depth(),
    {
        self.loop_depth
    }
}

/// The line that opens the loop over `v` at nesting level `level`.
pub open spec fn loop_header(v: IterationVar, level: nat) -> Seq<char> {
    spaces(4 * level) + "for(int "@ + v.name() + " = "@ + v.domain().0.text() + "; "@ + v.name()
        + " < "@ + v.domain().1.text() + "; "@ + v.name() + "++) {\n"@
}

/// The lines that open the loops over the first `n` of `ivars`, outermost first.
pub open spec fn loop_headers(ivars: Seq<IterationVar>, n: nat) -> Seq<char>
    decreases n,
{
    if n == 0 {
        Seq::empty()
    } else {
        loop_headers(ivars, (n - 1) as nat) + loop_header(ivars[n - 1], (n - 1) as nat)
    }
}

/// The line that closes the loop at nesting level `level`.
pub open spec fn loop_footer(level: nat) -> Seq<char> {
    spaces(4 * level) + "}\n"@
}

/// The lines that close `n` nested loops, innermost first.
pub open spec fn loop_footers(n: nat) -> Seq<char>
    decreases n,
{
    if n == 0 {
        Seq::empty()
    } else {
        loop_footer((n - 1) as nat) + loop_footers((n - 1) as nat)
    }
}

/// `body` inside the loop nest over `ivars`: the headers, outermost first, each
/// four blanks deeper than the one before; the lines of `body` one level deeper
/// still; the closing braces, innermost first.
pub open spec fn loop_text(ivars: Seq<IterationVar>, body: Seq<char>) -> Seq<char> {
    loop_headers(ivars, ivars.len()) + indent_lines(split_lines(body), 4 * ivars.len())
        + loop_footers(ivars.len())
}

/// Appends to `out` the line that opens the loop over `v` at nesting level `level`.
pub fn push_loop_header(out: &mut String, v: &IterationVar, level: usize)
    ensures
        final(out)@ == old(out)@ + loop_header(*v, level as nat),
{
    let domain = v.get_domain();
    let lower = domain.0.to_string();
    let upper = domain.1.to_string();
    push_indent(out, level);
    out.append("for(int ");
    out.append(v.get_name().as_str());
    out.append(" = ");
    out.append(lower.as_str());
    out.append("; ");
    out.append(v.get_name().as_str());
    out.append(" < ");
    out.append(upper.as_str());
    out.append("; ");
    out.append(v.get_name().as_str());
    out.append("++) {\n");
    assert(out@ =~= old(out)@ + loop_header(*v, level as nat));
}

impl AccessMap {
    /// Wraps `body` in the loop nest of this access map. The declared depth has to
    /// be the number of iteration variables; the first variable added is the
    /// outermost loop. The code has as many opening braces, and as many closing
    /// braces, as the map is deep, where neither the variables nor `body` hold
    /// braces of their own.
    pub fn gen_loop_access(&self, body: String) -> (r: ThrillerResult<String>)
        ensures
            match r {
                Ok(code) => self.depth() == self.ivars().len() && code@ == loop_text(
                    self.ivars(),
                    body@,
                ),
                Err(e) => self.depth() != self.ivars().len() && e == ThrillerError::LoopMisMatch,
            },
            r matches Ok(code) ==> (plain_loops(self.ivars()) && brace_free(body@) ==> count_char(
                code@,
                '{',
            ) == self.depth() && count_char(code@, '}') == self.depth()),
    {
        if self.loop_depth != self.ivars.len() {
            return Err(ThrillerError::LoopMisMatch);
        }
        let n = self.ivars.len();
        let ghost ivars = self.ivars();
        let mut code = String::new();
        let mut i: usize = 0;
        assert(code@ =~= loop_headers(ivars, 0));
        while i < n
            invariant
                i <= n,
                n == self.ivars@.len(),
                ivars == self.ivars(),
                code@ == loop_headers(ivars, i as nat),
            decreases n - i,
        {
            push_loop_header(&mut code, &self.ivars[i], i);
            i = i + 1;
        }
        let lines = lines_of(body.as_str());
        push_indented(&mut code, &lines, n);
        let ghost inner = code@;
        let mut k: usize = n;
        assert(inner + loop_footers(n as nat) =~= code@ + loop_footers(k as nat));
        while k > 0
            invariant
                k <= n,
                code@ + loop_footers(k as nat) == inner + loop_footers(n as nat),
            decreases k,
        {
            let ghost before = code@;
            k = k - 1;
            push_indent(&mut code, k);
            code.append("}\n");
            assert(code@ + loop_footers(k as nat) =~= before + loop_footers((k + 1) as nat));
        }
        assert(code@ =~= loop_text(ivars, body@)) by {
            assert(code@ + loop_footers(0) =~= code@);
            assert(ivars.len() == n);
        }
        proof {
            if plain_loops(ivars) && brace_free(body@) {
                lemma_loop_braces(ivars, body@);
            }
        }
        Ok(code)
    }
}

/// The term by which a variable named `name` enters an index expression with
/// coefficient `coef`: nothing where the coefficient is zero.
pub open spec fn term_text(coef: usize, name: Seq<char>) -> Seq<char> {
    if coef == 0 {
        Seq::empty()
    } else {
        decimal(coef as nat) + " * "@ + name
    }
}

/// The terms of the first `n` columns of `row`, one behind the other.
pub open spec fn row_terms(row: Seq<usize>, ivars: Seq<IterationVar>, n: nat) -> Seq<char>
    decreases n,
{
    if n == 0 {
        Seq::empty()
    } else {
        row_terms(row, ivars, (n - 1) as nat) + term_text(row[n - 1], ivars[n - 1].name())
    }
}

/// The text that adds `offset` to an index expression: nothing where it is zero.
pub open spec fn offset_text(offset: usize) -> Seq<char> {
    if offset == 0 {
        Seq::empty()
    } else {
        " + "@ + decimal(offset as nat)
    }
}

/// The index expression of one dimension: the terms of `row`, then the offset.
pub open spec fn row_text(row: Seq<usize>, ivars: Seq<IterationVar>, offset: usize) -> Seq<char> {
    row_terms(row, ivars, row.len()) + offset_text(offset)
}

/// Appends to `out` the index expression of `row` with `offset`.
fn push_row_text(out: &mut String, row: &Vec<usize>, ivars: &Vec<Rc<IterationVar>>, offset: usize)
    requires
        row@.len() <= ivars@.len(),
    ensures
        final(out)@ == old(out)@ + row_text(row@, pointees(ivars@), offset),
{
    let ghost vars = pointees(ivars@);
    let mut c: usize = 0;
    assert(out@ =~= old(out)@ + row_terms(row@, vars, 0));
    while c < row.len()
        invariant
            c <= row@.len() <= ivars@.len(),
            vars == pointees(ivars@),
            out@ == old(out)@ + row_terms(row@, vars, c as nat),
        decreases row.len() - c,
    {
        let ghost before = out@;
        let coef = row[c];
        if coef != 0 {
            push_decimal(out, coef);
            out.append(" * ");
            out.append(ivars[c].get_name().as_str());
        }
        assert(out@ =~= before + term_text(coef, vars[c as int].name()));
        c = c + 1;
        assert(out@ =~= old(out)@ + row_terms(row@, vars, c as nat));
    }
    let ghost before = out@;
    if offset != 0 {
        out.append(" + ");
        push_decimal(out, offset);
    }
    assert(out@ =~= before + offset_text(offset));
    assert(out@ =~= old(out)@ + row_text(row@, vars, offset));
}

impl AccessMap {
    /// Whether the index expressions of buffer `index` can be written: the buffer
    /// has a matrix and an offset vector, an offset for each row of the matrix,
    /// and no row has more columns than there are iteration variables.
    pub open spec fn access_ok(&self, index: int) -> bool {
        &&& 0 <= index < self.matrices().len()
        &&& index < self.offsets().len()
        &&& self.matrices()[index].len() <= self.offsets()[index].len()
        &&& forall|r: int|
            0 <= r < self.matrices()[index].len() ==> #[trigger] self.matrices()[index][r].len()
                <= self.ivars().len()
    }

    /// The index expressions of buffer `index`, one per row of its matrix.
    pub open spec fn access_text(&self, index: int) -> Seq<Seq<char>> {
        Seq::new(
            self.matrices()[index].len(),
            |r: int| row_text(self.matrices()[index][r], self.ivars(), self.offsets()[index][r]),
        )
    }

    /// Emit Memory Access code based on index: the index expression of each
    /// dimension of buffer `index`.
    pub fn emit_access(&self, index: usize) -> (r: ThrillerResult<Vec<String>>)
        ensures
            match r {
                Ok(access) => self.access_ok(index as int) && views(access@) == self.access_text(
                    index as int,
                ),
                Err(e) => !self.access_ok(index as int) && e == ThrillerError::InvalidAccessPattern,
            },
    {
        if index >= self.access_matrixs.len() || index >= self.offset.len() {
            return Err(ThrillerError::InvalidAccessPattern);
        }
        let matrix = &self.access_matrixs[index].0;
        let offsets = &self.offset[index].0;
        assert(self.matrices()[index as int] == self.access_matrixs@[index as int].rows());
        assert(self.offsets()[index as int] == offsets@);
        if matrix.len() > offsets.len() {
            return Err(ThrillerError::InvalidAccessPattern);
        }
        let ghost rows = self.matrices()[index as int];
        let mut access: Vec<String> = Vec::new();
        let mut r: usize = 0;
        while r < matrix.len()
            invariant
                r <= matrix@.len() <= offsets@.len(),
                rows == self.matrices()[index as int],
                rows == self.access_matrixs@[index as int].rows(),
                matrix == &self.access_matrixs@[index as int].0,
                offsets@ == self.offsets()[index as int],
                0 <= index < self.matrices().len(),
                index < self.offsets().len(),
                access@.len() == r,
                forall|q: int| 0 <= q < r ==> #[trigger] rows[q].len() <= self.ivars().len(),
                forall|q: int|
                    0 <= q < r ==> #[trigger] access@[q]@ == row_text(
                        rows[q],
                        self.ivars(),
                        offsets@[q],
                    ),
            decreases matrix.len() - r,
        {
            let row = &matrix[r];
            assert(rows[r as int] == row@);
            if row.len() > self.ivars.len() {
                return Err(ThrillerError::InvalidAccessPattern);
            }
            let mut code = String::new();
            push_row_text(&mut code, row, &self.ivars, offsets[r]);
            assert(code@ =~= row_text(rows[r as int], self.ivars(), offsets@[r as int]));
            access.push(code);
            r = r + 1;
        }
        assert(views(access@) =~= self.access_text(index as int));
        Ok(access)
    }
}

/// Whether the two vectors hold the same numbers in the same order.
fn same_numbers(a: &Vec<usize>, b: &Vec<usize>) -> (r: bool)
    ensures
        r == (a@ == b@),
{
    if a.len() != b.len() {
        return false;
    }
    let mut i: usize = 0;
    while i < a.len()
        invariant
            i <= a@.len() == b@.len(),
            forall|k: int| 0 <= k < i ==> a@[k] == b@[k],
        decreases a.len() - i,
    {
        if a[i] != b[i] {
            return false;
        }
        i = i + 1;
    }
    assert(a@ =~= b@);
    true
}

/// Whether the two matrices have the same rows.
fn same_rows(a: &AccessMatrix, b: &AccessMatrix) -> (r: bool)
    ensures
        r == (a.rows() == b.rows()),
{
    if a.0.len() != b.0.len() {
        assert(a.rows().len() != b.rows().len());
        return false;
    }
    let mut i: usize = 0;
    while i < a.0.len()
        invariant
            i <= a.0@.len() == b.0@.len(),
            forall|k: int| 0 <= k < i ==> a.rows()[k] == b.rows()[k],
        decreases a.0.len() - i,
    {
        if !same_numbers(&a.0[i], &b.0[i]) {
            assert(a.rows()[i as int] != b.rows()[i as int]);
            return false;
        }
        i = i + 1;
    }
    assert(a.rows() =~= b.rows());
    true
}

impl AccessMap {
    /// Two access maps are identical where they have the same declared depth and
    /// dimensions, the same matrices and offsets, and iteration variables of the
    /// same identifiers in the same order.
    pub open spec fn identical(&self, other: &AccessMap) -> bool {
        &&& self.depth() == other.depth()
        &&& self.dims() == other.dims()
        &&& self.matrices() == other.matrices()
        &&& self.offsets() == other.offsets()
        &&& var_ids(self.ivars()) == var_ids(other.ivars())
    }

    /// Whether the two access maps are identical.
    pub fn same_as(&self, other: &AccessMap) -> (r: bool)
        ensures
            r == self.identical(other),
    {
        if self.loop_depth != other.loop_depth {
            return false;
        }
        if !same_numbers(&self.access_dims, &other.access_dims) {
            return false;
        }
        if self.access_matrixs.len() != other.access_matrixs.len() {
            assert(self.matrices().len() != other.matrices().len());
            return false;
        }
        if self.offset.len() != other.offset.len() {
            assert(self.offsets().len() != other.offsets().len());
            return false;
        }
        if self.ivars.len() != other.ivars.len() {
            assert(var_ids(self.ivars()).len() != var_ids(other.ivars()).len());
            return false;
        }
        let mut i: usize = 0;
        while i < self.access_matrixs.len()
            invariant
                i <= self.access_matrixs@.len() == other.access_matrixs@.len(),
                forall|k: int| 0 <= k < i ==> self.matrices()[k] == other.matrices()[k],
            decreases self.access_matrixs.len() - i,
        {
            if !same_rows(&self.access_matrixs[i], &other.access_matrixs[i]) {
                assert(self.matrices()[i as int] != other.matrices()[i as int]);
                return false;
            }
            i = i + 1;
        }
        assert(self.matrices() =~= other.matrices());
        let mut i: usize = 0;
        while i < self.offset.len()
            invariant
                i <= self.offset@.len() == other.offset@.len(),
                forall|k: int| 0 <= k < i ==> self.offsets()[k] == other.offsets()[k],
            decreases self.offset.len() - i,
        {
            if !same_numbers(&self.offset[i].0, &other.offset[i].0) {
                assert(self.offsets()[i as int] != other.offsets()[i as int]);
                return false;
            }
            i = i + 1;
        }
        assert(self.offsets() =~= other.offsets());
        let mut i: usize = 0;
        while i < self.ivars.len()
            invariant
                i <= self.ivars@.len() == other.ivars@.len(),
                forall|k: int|
                    0 <= k < i ==> var_ids(self.ivars())[k] == var_ids(other.ivars())[k],
            decreases self.ivars.len() - i,
        {
            if self.ivars[i].get_id() != other.ivars[i].get_id() {
                assert(var_ids(self.ivars())[i as int] != var_ids(other.ivars())[i as int]);
                return false;
            }
            i = i + 1;
        }
        assert(var_ids(self.ivars()) =~= var_ids(other.ivars()));
        true
    }
}

/// A row of zeros has no terms: with the offset zero, its index expression is empty.
pub proof fn lemma_zero_row_is_empty(row: Seq<usize>, ivars: Seq<IterationVar>, n: nat)
    requires
        n <= row.len(),
        forall|c: int| 0 <= c < n ==> row[c] == 0,
    ensures
        row_terms(row, ivars, n) == Seq::<char>::empty(),
        n == row.len() ==> row_text(row, ivars, 0) == Seq::<char>::empty(),
    decreases n,
{
    if n > 0 {
        lemma_zero_row_is_empty(row, ivars, (n - 1) as nat);
        assert(row_terms(row, ivars, n) =~= Seq::<char>::empty());
    }
    if n == row.len() {
        assert(row_text(row, ivars, 0) =~= Seq::<char>::empty());
    }
}

/// The terms of a row depend on its first `n` columns and their variables only.
pub proof fn lemma_row_terms_prefix(
    row: Seq<usize>,
    ivars: Seq<IterationVar>,
    row2: Seq<usize>,
    ivars2: Seq<IterationVar>,
    n: nat,
)
    requires
        n <= row.len(),
        n <= row2.len(),
        n <= ivars.len(),
        n <= ivars2.len(),
        forall|c: int| 0 <= c < n ==> row[c] == row2[c] && ivars[c].name() == ivars2[c].name(),
    ensures
        row_terms(row, ivars, n) == row_terms(row2, ivars2, n),
    decreases n,
{
    if n > 0 {
        lemma_row_terms_prefix(row, ivars, row2, ivars2, (n - 1) as nat);
    }
}

/// A coefficient of zero is omitted: the terms of a row are those of the row
/// without that column and without the variable of that column.
pub proof fn lemma_zero_term_omitted(row: Seq<usize>, ivars: Seq<IterationVar>, c: int, n: nat)
    requires
        0 <= c < n <= row.len(),
        n <= ivars.len(),
        row[c] == 0,
    ensures
        row_terms(row, ivars, n) == row_terms(row.remove(c), ivars.remove(c), (n - 1) as nat),
    decreases n,
{
    if c == n - 1 {
        lemma_row_terms_prefix(row, ivars, row.remove(c), ivars.remove(c), (n - 1) as nat);
        assert(row_terms(row, ivars, n) =~= row_terms(row, ivars, (n - 1) as nat));
    } else {
        lemma_zero_term_omitted(row, ivars, c, (n - 1) as nat);
        assert(row.remove(c)[n - 2] == row[n - 1]);
        assert(ivars.remove(c)[n - 2] == ivars[n - 1]);
    }
}

/// Whether `s` holds no brace.
pub open spec fn brace_free(s: Seq<char>) -> bool {
    free_of(s, '{') && free_of(s, '}')
}

/// Whether neither the names nor the bounds of `ivars` hold a brace.
pub open spec fn plain_loops(ivars: Seq<IterationVar>) -> bool {
    forall|k: int|
        0 <= k < ivars.len() ==> brace_free((#[trigger] ivars[k]).name()) && brace_free(
            ivars[k].domain().0.text(),
        ) && brace_free(ivars[k].domain().1.text())
}

/// The headers of the first `n` loops do not depend on the loops inside them.
pub proof fn lemma_loop_headers_prefix(ivars: Seq<IterationVar>, others: Seq<IterationVar>, n: nat)
    requires
        n <= ivars.len(),
        n <= others.len(),
        forall|k: int| 0 <= k < n ==> ivars[k] == others[k],
    ensures
        loop_headers(ivars, n) == loop_headers(others, n),
    decreases n,
{
    if n > 0 {
        lemma_loop_headers_prefix(ivars, others, (n - 1) as nat);
    }
}

/// Loops are nested in the order of the iteration variables: one more variable
/// is one more loop inside the others. Its header stands behind theirs and its
/// closing brace before theirs, both one level deeper than the innermost of
/// them, and the body one level deeper still.
pub proof fn lemma_innermost_loop(ivars: Seq<IterationVar>, v: IterationVar, body: Seq<char>)
    ensures
        loop_text(ivars.push(v), body) == loop_headers(ivars, ivars.len()) + loop_header(
            v,
            ivars.len(),
        ) + indent_lines(split_lines(body), 4 * (ivars.len() + 1)) + loop_footer(ivars.len())
            + loop_footers(ivars.len()),
{
    let all = ivars.push(v);
    lemma_loop_headers_prefix(all, ivars, ivars.len());
    assert(loop_text(all, body) =~= loop_headers(ivars, ivars.len()) + loop_header(v, ivars.len())
        + indent_lines(split_lines(body), 4 * (ivars.len() + 1)) + loop_footer(ivars.len())
        + loop_footers(ivars.len()));
}

/// The header of a loop has one opening brace and no closing one, where neither
/// the name nor the bounds of its variable hold a brace.
pub proof fn lemma_loop_header_braces(v: IterationVar, level: nat)
    requires
        brace_free(v.name()),
        brace_free(v.domain().0.text()),
        brace_free(v.domain().1.text()),
    ensures
        count_char(loop_header(v, level), '{') == 1,
        count_char(loop_header(v, level), '}') == 0,
{
    reveal_strlit("for(int ");
    reveal_strlit(" = ");
    reveal_strlit("; ");
    reveal_strlit(" < ");
    reveal_strlit("++) {\n");
    let name = v.name();
    let lower = v.domain().0.text();
    let upper = v.domain().1.text();
    let front = spaces(4 * level) + "for(int "@ + name + " = "@ + lower + "; "@ + name + " < "@
        + upper + "; "@ + name;
    let tail = "++) {\n"@;
    lemma_spaces_free(4 * level, '{');
    lemma_spaces_free(4 * level, '}');
    assert(free_of(front, '{'));
    assert(free_of(front, '}'));
    assert(free_of(tail, '}'));
    lemma_count_free(front, '{');
    lemma_count_free(front, '}');
    lemma_count_free(tail, '}');
    assert(count_char(tail, '{') == 1) by {
        let a = tail.drop_last();
        let b = a.drop_last();
        assert(tail.last() == '\n');
        assert(a.last() == '{');
        assert(free_of(b, '{'));
        lemma_count_free(b, '{');
        assert(count_char(a, '{') == count_char(b, '{') + 1);
        assert(count_char(tail, '{') == count_char(a, '{'));
    }
    lemma_count_add(front, tail, '{');
    lemma_count_add(front, tail, '}');
    assert(loop_header(v, level) =~= front + tail);
}

/// The footer of a loop has one closing brace and no opening one.
pub proof fn lemma_loop_footer_braces(level: nat)
    ensures
        count_char(loop_footer(level), '{') == 0,
        count_char(loop_footer(level), '}') == 1,
{
    reveal_strlit("}\n");
    let tail = "}\n"@;
    lemma_spaces_free(4 * level, '{');
    lemma_spaces_free(4 * level, '}');
    lemma_count_free(spaces(4 * level), '{');
    lemma_count_free(spaces(4 * level), '}');
    assert(free_of(tail, '{'));
    lemma_count_free(tail, '{');
    assert(count_char(tail, '}') == 1) by {
        let a = tail.drop_last();
        assert(tail.last() == '\n');
        assert(a.last() == '}');
        assert(a.drop_last().len() == 0);
        assert(count_char(a.drop_last(), '}') == 0);
        assert(count_char(a, '}') == count_char(a.drop_last(), '}') + 1);
        assert(count_char(tail, '}') == count_char(a, '}'));
    }
    lemma_count_add(spaces(4 * level), tail, '{');
    lemma_count_add(spaces(4 * level), tail, '}');
}

/// The headers of `n` loops have `n` opening braces and no closing one.
pub proof fn lemma_loop_headers_braces(ivars: Seq<IterationVar>, n: nat)
    requires
        n <= ivars.len(),
        plain_loops(ivars),
    ensures
        count_char(loop_headers(ivars, n), '{') == n,
        count_char(loop_headers(ivars, n), '}') == 0,
    decreases n,
{
    if n > 0 {
        lemma_loop_headers_braces(ivars, (n - 1) as nat);
        assert(brace_free(ivars[n - 1].name()));
        lemma_loop_header_braces(ivars[n - 1], (n - 1) as nat);
        lemma_count_add(
            loop_headers(ivars, (n - 1) as nat),
            loop_header(ivars[n - 1], (n - 1) as nat),
            '{',
        );
        lemma_count_add(
            loop_headers(ivars, (n - 1) as nat),
            loop_header(ivars[n - 1], (n - 1) as nat),
            '}',
        );
    }
}

/// The footers of `n` loops have `n` closing braces and no opening one.
pub proof fn lemma_loop_footers_braces(n: nat)
    ensures
        count_char(loop_footers(n), '{') == 0,
        count_char(loop_footers(n), '}') == n,
    decreases n,
{
    if n > 0 {
        lemma_loop_footers_braces((n - 1) as nat);
        lemma_loop_footer_braces((n - 1) as nat);
        lemma_count_add(loop_footer((n - 1) as nat), loop_footers((n - 1) as nat), '{');
        lemma_count_add(loop_footer((n - 1) as nat), loop_footers((n - 1) as nat), '}');
    }
}

/// A loop nest has as many opening braces, and as many closing braces, as it has
/// loops, where neither its variables nor its body hold braces of their own.
pub proof fn lemma_loop_braces(ivars: Seq<IterationVar>, body: Seq<char>)
    requires
        plain_loops(ivars),
        brace_free(body),
    ensures
        count_char(loop_text(ivars, body), '{') == ivars.len(),
        count_char(loop_text(ivars, body), '}') == ivars.len(),
{
    let n = ivars.len();
    let headers = loop_headers(ivars, n);
    let inner = indent_lines(split_lines(body), 4 * n);
    let footers = loop_footers(n);
    lemma_loop_headers_braces(ivars, n);
    lemma_loop_footers_braces(n);
    lemma_lines_free(body, '{');
    lemma_lines_free(body, '}');
    lemma_indent_free(split_lines(body), 4 * n, '{');
    lemma_indent_free(split_lines(body), 4 * n, '}');
    lemma_count_free(inner, '{');
    lemma_count_free(inner, '}');
    lemma_count_add(headers, inner, '{');
    lemma_count_add(headers, inner, '}');
    lemma_count_add(headers + inner, footers, '{');
    lemma_count_add(headers + inner, footers, '}');
}

/// A fixed bound holds no brace.
pub proof fn lemma_fixed_bound_plain(bound: IterationBound)
    requires
        bound is Fixed,
    ensures
        brace_free(bound.text()),
{
    lemma_decimal_free(bound->Fixed_0 as nat);
}

} // verus!
