//! Shapes of buffers: the lengths of their axes, their layout and their strides.

use vstd::prelude::*;

verus! {

/// Array index type.
pub type Ix = usize;

/// The indices that a `SmallVec` of the crate smallvec holds: up to four of them
/// inline, more on the heap. The functions below are the only ones that touch
/// it; their contracts are taken from the source of smallvec and are not proved.
/// As with the `Vec` of std, running out of memory is not what they speak of.
#[verifier::external_body]
pub struct IxVec {
    items: smallvec::SmallVec<[Ix; 4]>,
}

/// The indices that `v` holds, in order.
pub uninterp spec fn ix_items(v: IxVec) -> Seq<Ix>;

/// `SmallVec::new` of smallvec: an empty vector.
#[verifier::external_body]
fn ix_new() -> (v: IxVec)
    ensures
        ix_items(v) == Seq::<Ix>::empty(),
{
    IxVec { items: smallvec::SmallVec::new() }
}

/// `SmallVec::push` of smallvec: appends `value` behind the items held.
#[verifier::external_body]
fn ix_push(v: &mut IxVec, value: Ix)
    ensures
        ix_items(*final(v)) == ix_items(*old(v)).push(value),
{
    v.items.push(value)
}

/// `SmallVec::from_elem` of smallvec: `n` copies of `elem`.
#[verifier::external_body]
fn ix_from_elem(elem: Ix, n: usize) -> (v: IxVec)
    ensures
        ix_items(v) == Seq::new(n as nat, |i: int| elem),
{
    IxVec { items: smallvec::SmallVec::from_elem(elem, n) }
}

/// `SmallVec::as_slice` of smallvec: the items held, as a slice.
#[verifier::external_body]
fn ix_as_slice(v: &IxVec) -> (s: &[Ix])
    ensures
        s@ == ix_items(*v),
{
    v.items.as_slice()
}

/// `IndexMut::index_mut` of smallvec's `SmallVec`, assigned through: the item at
/// `index` becomes `value`, the others stay. It panics where `index` is out of range.
#[verifier::external_body]
fn ix_set(v: &mut IxVec, index: usize, value: Ix)
    requires
        index < ix_items(*old(v)).len(),
    ensures
        ix_items(*final(v)) == ix_items(*old(v)).update(index as int, value),
{
    v.items[index] = value;
}

/// `Clone::clone` of smallvec's `SmallVec`: a vector of the same items.
#[verifier::external_body]
fn ix_clone(v: &IxVec) -> (c: IxVec)
    ensures
        ix_items(c) == ix_items(*v),
{
    IxVec { items: v.items.clone() }
}

/// The product of the numbers of `s`; 1 for none.
pub open spec fn product(s: Seq<Ix>) -> int
    decreases s.len(),
{
    if s.len() == 0 {
        1
    } else {
        product(s.drop_last()) * s.last()
    }
}

/// Whether no axis of `dims` has length zero.
pub open spec fn all_nonzero(dims: Seq<Ix>) -> bool {
    forall|k: int| 0 <= k < dims.len() ==> dims[k] != 0
}

/// The stride of axis `k` in the standard layout: the product of the lengths of
/// the axes behind it; zero where an axis is empty.
pub open spec fn row_major_stride(dims: Seq<Ix>, k: int) -> int {
    if all_nonzero(dims) {
        product(dims.subrange(k + 1, dims.len() as int))
    } else {
        0
    }
}

/// The stride of axis `k` in the Fortran layout: the product of the lengths of
/// the axes before it; zero where an axis is empty.
pub open spec fn column_major_stride(dims: Seq<Ix>, k: int) -> int {
    if all_nonzero(dims) {
        product(dims.subrange(0, k))
    } else {
        0
    }
}

/// Whether every stride of the standard layout of `dims` is a `usize`.
pub open spec fn row_major_fits(dims: Seq<Ix>) -> bool {
    forall|k: int| 0 <= k < dims.len() ==> #[trigger] row_major_stride(dims, k) <= usize::MAX
}

/// Whether every stride of the Fortran layout of `dims` is a `usize`.
pub open spec fn column_major_fits(dims: Seq<Ix>) -> bool {
    forall|k: int| 0 <= k < dims.len() ==> #[trigger] column_major_stride(dims, k) <= usize::MAX
}

/// Whether `strides` holds the strides of the standard layout of `dims`.
pub open spec fn is_row_major(strides: Seq<Ix>, dims: Seq<Ix>) -> bool {
    &&& strides.len() == dims.len()
    &&& forall|k: int| 0 <= k < dims.len() ==> #[trigger] strides[k] == row_major_stride(dims, k)
}

/// Whether `strides` holds the strides of the Fortran layout of `dims`.
pub open spec fn is_column_major(strides: Seq<Ix>, dims: Seq<Ix>) -> bool {
    &&& strides.len() == dims.len()
    &&& forall|k: int|
        0 <= k < dims.len() ==> #[trigger] strides[k] == column_major_stride(dims, k)
}

/// Dimension description.
pub trait Dimension: Sized {
    /// The length of each axis.
    spec fn axes(&self) -> Seq<Ix>;

    /// Returns the number of dimensions (number of axes).
    fn ndim(&self) -> (n: usize)
        ensures
            n == self.axes().len(),
    ;

    /// Creates a dimension of all zeros with the specified ndim.
    fn zeros(ndim: usize) -> (d: Self)
        ensures
            d.axes() == Seq::new(ndim as nat, |i: int| 0usize),
    ;

    /// The length of each axis, as a slice.
    fn slice(&self) -> (s: &[Ix])
        ensures
            s@ == self.axes(),
    ;

    /// Returns the strides for a standard layout with the given shape:
    /// shape (a, b, c) gives strides (b * c, c, 1).
    fn default_strides(&self) -> (strides: Self)
        requires
            row_major_fits(self.axes()),
        ensures
            is_row_major(strides.axes(), self.axes()),
    ;

    /// Returns the strides for a Fortran layout array with the given shape:
    /// shape (a, b, c) gives strides (1, a, a * b).
    fn fortran_strides(&self) -> (strides: Self)
        requires
            column_major_fits(self.axes()),
        ensures
            is_column_major(strides.axes(), self.axes()),
    ;
}

/// Stride description.
pub enum Layout<D> {
    /// Row-major
    RowMajor,
    /// Column-major
    ColumnMajor,
    /// Custom strides
    Custom(D),
}

/// The product of a sequence is its first number times the product of the rest.
pub proof fn lemma_product_head(s: Seq<Ix>)
    requires
        s.len() > 0,
    ensures
        product(s) == s[0] * product(s.drop_first()),
    decreases s.len(),
{
    if s.len() == 1 {
        assert(s.drop_last() =~= Seq::<Ix>::empty());
        assert(s.drop_first() =~= Seq::<Ix>::empty());
        assert(product(s.drop_last()) == 1);
        assert(product(s.drop_first()) == 1);
    } else {
        let init = s.drop_last();
        let tail = s.drop_first();
        lemma_product_head(init);
        assert(init.drop_first() =~= tail.drop_last());
        assert(init[0] == s[0]);
        assert(tail.last() == s.last());
        let p = product(tail.drop_last());
        assert(product(s) == (s[0] * p) * s.last());
        assert(product(tail) == p * s.last());
        assert((s[0] * p) * s.last() == s[0] * (p * s.last())) by (nonlinear_arith);
    }
}

/// Dimension description.
///
/// [`Dim`] describes the number of axes and the length of each axis
/// in an array. It is also used as an index type.
pub struct Dim {
    dims: IxVec,
    ndim: usize,
}

impl Dim {
    #[verifier::type_invariant]
    spec fn counted(self) -> bool {
        self.ndim == ix_items(self.dims).len()
    }

    /// Create a new Dim.
    pub fn new(dims: &[Ix]) -> (d: Self)
        ensures
            d.axes() == dims@,
    {
        let ndim = dims.len();
        let mut new_dims = ix_new();
        let mut i: usize = 0;
        while i < ndim
            invariant
                i <= ndim == dims@.len(),
                ix_items(new_dims) == dims@.take(i as int),
            decreases ndim - i,
        {
            ix_push(&mut new_dims, dims[i]);
            i = i + 1;
            assert(ix_items(new_dims) =~= dims@.take(i as int));
        }
        assert(dims@.take(ndim as int) =~= dims@);
        Dim { dims: new_dims, ndim }
    }

    /// Whether no axis has length zero.
    fn is_nonempty(&self) -> (b: bool)
        ensures
            b == all_nonzero(self.axes()),
    {
        let s = ix_as_slice(&self.dims);
        let mut i: usize = 0;
        while i < s.len()
            invariant
                i <= s@.len(),
                s@ == self.axes(),
                forall|k: int| 0 <= k < i ==> s@[k] != 0,
            decreases s.len() - i,
        {
            if s[i] == 0 {
                return false;
            }
            i = i + 1;
        }
        true
    }
}

impl Clone for Dim {
    fn clone(&self) -> (d: Self)
        ensures
            d.axes() == self.axes(),
    {
        proof {
            use_type_invariant(self);
        }
        Dim { dims: ix_clone(&self.dims), ndim: self.ndim }
    }
}

impl Dimension for Dim {
    closed spec fn axes(&self) -> Seq<Ix> {
        ix_items(self.dims)
    }

    fn ndim(&self) -> (n: usize) {
        proof {
            use_type_invariant(self);
        }
        self.ndim
    }

    fn zeros(ndim: usize) -> (d: Self) {
        Dim { dims: ix_from_elem(0, ndim), ndim }
    }

    fn slice(&self) -> (s: &[Ix]) {
        ix_as_slice(&self.dims)
    }

    fn default_strides(&self) -> (strides: Self) {
        proof {
            use_type_invariant(self);
        }
        let n = self.ndim;
        let dims = ix_as_slice(&self.dims);
        let mut out = ix_from_elem(0, n);
        if self.is_nonempty() && n > 0 {
            let mut k: usize = n - 1;
            let mut cum_prod: usize = 1;
            ix_set(&mut out, k, 1);
            assert(dims@.subrange(n as int, n as int) =~= Seq::<Ix>::empty());
            while k > 0
                invariant
                    k < n == dims@.len(),
                    dims@ == self.axes(),
                    all_nonzero(dims@),
                    row_major_fits(dims@),
                    ix_items(out).len() == n,
                    cum_prod == product(dims@.subrange(k + 1, n as int)),
                    forall|j: int| k <= j < n ==> #[trigger] ix_items(out)[j] == row_major_stride(dims@, j),
                decreases k,
            {
                proof {
                    let tail = dims@.subrange(k as int, n as int);
                    lemma_product_head(tail);
                    assert(tail.drop_first() =~= dims@.subrange(k + 1, n as int));
                    assert(row_major_stride(dims@, k - 1) == product(tail));
                    assert(row_major_stride(dims@, k - 1) <= usize::MAX);
                    assert(tail[0] * cum_prod == cum_prod * tail[0]) by (nonlinear_arith);
                }
                cum_prod = cum_prod * dims[k];
                k = k - 1;
                ix_set(&mut out, k, cum_prod);
            }
        }
        let strides = Dim { dims: out, ndim: n };
        assert(is_row_major(strides.axes(), self.axes()));
        strides
    }

    fn fortran_strides(&self) -> (strides: Self) {
        proof {
            use_type_invariant(self);
        }
        let n = self.ndim;
        let dims = ix_as_slice(&self.dims);
        let mut out = ix_from_elem(0, n);
        if self.is_nonempty() && n > 0 {
            let mut k: usize = 0;
            let mut cum_prod: usize = 1;
            ix_set(&mut out, 0, 1);
            assert(dims@.subrange(0, 0) =~= Seq::<Ix>::empty());
            while k + 1 < n
                invariant
                    k < n == dims@.len(),
                    dims@ == self.axes(),
                    all_nonzero(dims@),
                    column_major_fits(dims@),
                    ix_items(out).len() == n,
                    cum_prod == product(dims@.subrange(0, k as int)),
                    forall|j: int| 0 <= j <= k ==> #[trigger] ix_items(out)[j] == column_major_stride(dims@, j),
                decreases n - k,
            {
                proof {
                    let head = dims@.subrange(0, k + 1);
                    assert(head.drop_last() =~= dims@.subrange(0, k as int));
                    assert(head.last() == dims@[k as int]);
                    assert(column_major_stride(dims@, k + 1) == product(head));
                    assert(column_major_stride(dims@, k + 1) <= usize::MAX);
                }
                cum_prod = cum_prod * dims[k];
                k = k + 1;
                ix_set(&mut out, k, cum_prod);
            }
        }
        let strides = Dim { dims: out, ndim: n };
        assert(is_column_major(strides.axes(), self.axes()));
        strides
    }
}

impl<D: Dimension> Layout<D> {
    /// Whether `strides` are the strides that this layout gives to the shape `dim`.
    pub open spec fn gives(&self, dim: Seq<Ix>, strides: Seq<Ix>) -> bool {
        match self {
            Layout::RowMajor => is_row_major(strides, dim),
            Layout::ColumnMajor => is_column_major(strides, dim),
            Layout::Custom(d) => strides == d.axes(),
        }
    }

    /// Whether the strides that this layout gives to the shape `dim` can be computed:
    /// the layout is row-major or column-major, and the strides are `usize`s.
    pub open spec fn computable(&self, dim: Seq<Ix>) -> bool {
        match self {
            Layout::RowMajor => row_major_fits(dim),
            Layout::ColumnMajor => column_major_fits(dim),
            Layout::Custom(_) => false,
        }
    }

    /// The strides of the shape `dim` in this layout.
    pub fn strides_for_dim(&self, dim: &D) -> (strides: D)
        requires
            self.computable(dim.axes()),
        ensures
            self.gives(dim.axes(), strides.axes()),
    {
        match self {
            Layout::RowMajor => dim.default_strides(),
            _ => dim.fortran_strides(),
        }
    }
}

/// Whether the shape `dims` has no empty axis and every stride of its standard
/// layout is a `usize`, or it has an empty axis.
fn row_major_in_range(dims: &[Ix]) -> (b: bool)
    ensures
        b == row_major_fits(dims@),
{
    let n = dims.len();
    let mut i: usize = 0;
    while i < n
        invariant
            i <= n == dims@.len(),
            forall|k: int| 0 <= k < i ==> dims@[k] != 0,
        decreases n - i,
    {
        if dims[i] == 0 {
            assert(!all_nonzero(dims@));
            return true;
        }
        i = i + 1;
    }
    assert(all_nonzero(dims@));
    if n == 0 {
        return true;
    }
    let mut k: usize = n - 1;
    let mut cum_prod: usize = 1;
    assert(dims@.subrange(n as int, n as int) =~= Seq::<Ix>::empty());
    while k > 0
        invariant
            k < n == dims@.len(),
            all_nonzero(dims@),
            cum_prod == product(dims@.subrange(k + 1, n as int)),
            forall|j: int| k <= j < n ==> #[trigger] row_major_stride(dims@, j) <= usize::MAX,
        decreases k,
    {
        proof {
            let tail = dims@.subrange(k as int, n as int);
            lemma_product_head(tail);
            assert(tail.drop_first() =~= dims@.subrange(k + 1, n as int));
            assert(row_major_stride(dims@, k - 1) == product(tail));
            assert(tail[0] * cum_prod == cum_prod * tail[0]) by (nonlinear_arith);
        }
        match cum_prod.checked_mul(dims[k]) {
            Some(next) => {
                cum_prod = next;
            },
            None => {
                assert(row_major_stride(dims@, k - 1) > usize::MAX);
                return false;
            },
        }
        k = k - 1;
    }
    true
}

/// Whether the shape `dims` has no empty axis and every stride of its Fortran
/// layout is a `usize`, or it has an empty axis.
fn column_major_in_range(dims: &[Ix]) -> (b: bool)
    ensures
        b == column_major_fits(dims@),
{
    let n = dims.len();
    let mut i: usize = 0;
    while i < n
        invariant
            i <= n == dims@.len(),
            forall|k: int| 0 <= k < i ==> dims@[k] != 0,
        decreases n - i,
    {
        if dims[i] == 0 {
            assert(!all_nonzero(dims@));
            return true;
        }
        i = i + 1;
    }
    assert(all_nonzero(dims@));
    if n == 0 {
        return true;
    }
    let mut k: usize = 0;
    let mut cum_prod: usize = 1;
    assert(dims@.subrange(0, 0) =~= Seq::<Ix>::empty());
    while k + 1 < n
        invariant
            k < n == dims@.len(),
            all_nonzero(dims@),
            cum_prod == product(dims@.subrange(0, k as int)),
            forall|j: int| 0 <= j <= k ==> #[trigger] column_major_stride(dims@, j) <= usize::MAX,
        decreases n - k,
    {
        proof {
            let head = dims@.subrange(0, k + 1);
            assert(head.drop_last() =~= dims@.subrange(0, k as int));
            assert(head.last() == dims@[k as int]);
            assert(column_major_stride(dims@, k + 1) == product(head));
        }
        match cum_prod.checked_mul(dims[k]) {
            Some(next) => {
                cum_prod = next;
            },
            None => {
                assert(column_major_stride(dims@, k + 1) > usize::MAX);
                return false;
            },
        }
        k = k + 1;
    }
    true
}

/// Whether the two shapes have the same axes and the same layout.
pub open spec fn same_shape(a: Shape, b: Shape) -> bool {
    a.axes() == b.axes() && match (a.layout(), b.layout()) {
        (Layout::RowMajor, Layout::RowMajor) => true,
        (Layout::ColumnMajor, Layout::ColumnMajor) => true,
        (Layout::Custom(x), Layout::Custom(y)) => x.axes() == y.axes(),
        _ => false,
    }
}

/// Shape description.
pub struct Shape {
    dims: Dim,
    layout: Layout<Dim>,
}

impl Shape {
    /// The length of each axis.
    pub closed spec fn axes(&self) -> Seq<Ix> {
        self.dims.axes()
    }

    /// The layout.
    pub closed spec fn layout(&self) -> Layout<Dim> {
        self.layout
    }

    /// Create a new Shape.
    pub fn new(dims: &[Ix], layout: Layout<Dim>) -> (shape: Self)
        ensures
            shape.axes() == dims@,
            shape.layout() == layout,
    {
        Shape { dims: Dim::new(dims), layout }
    }

    /// Compute the stride for the given dimension.
    pub fn get_strides(&self) -> (strides: Dim)
        requires
            self.layout().computable(self.axes()),
        ensures
            self.layout().gives(self.axes(), strides.axes()),
    {
        self.layout.strides_for_dim(&self.dims)
    }

    /// The strides of the shape, where they can be computed: not for a custom
    /// layout, nor where a stride is no `usize`.
    pub fn checked_strides(&self) -> (strides: Option<Dim>)
        ensures
            strides is Some == self.layout().computable(self.axes()),
            strides matches Some(s) ==> self.layout().gives(self.axes(), s.axes()),
    {
        let fits = match &self.layout {
            Layout::RowMajor => row_major_in_range(self.dims.slice()),
            Layout::ColumnMajor => column_major_in_range(self.dims.slice()),
            Layout::Custom(_) => false,
        };
        if fits {
            Some(self.get_strides())
        } else {
            None
        }
    }

    /// Whether the two shapes have the same axes and the same layout.
    pub fn same_as(&self, other: &Shape) -> (b: bool)
        ensures
            b == same_shape(*self, *other),
    {
        let same_layout = match (&self.layout, &other.layout) {
            (Layout::RowMajor, Layout::RowMajor) => true,
            (Layout::ColumnMajor, Layout::ColumnMajor) => true,
            (Layout::Custom(a), Layout::Custom(b)) => same_items(a.slice(), b.slice()),
            _ => false,
        };
        same_layout && same_items(self.dims.slice(), other.dims.slice())
    }
}

/// Whether the two slices hold the same numbers in the same order.
fn same_items(a: &[Ix], b: &[Ix]) -> (r: bool)
    ensures
        r == (a@ == b@),
{
    if a.len() != b.len() {
        return false;
    }
    let mut i: usize = 0;
    while i < a.len()
        invariant
            i <= a@.len() == b@.len(),
            forall|k: int| 0 <= k < i ==> a@[k] == b@[k],
        decreases a.len() - i,
    {
        if a[i] != b[i] {
            return false;
        }
        i = i + 1;
    }
    assert(a@ =~= b@);
    true
}

} // verus!
