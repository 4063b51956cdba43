use vstd::prelude::*;
use vstd::arithmetic::div_mod::lemma_fundamental_div_mod;
use vstd::arithmetic::div_mod::lemma_fundamental_div_mod_converse;
use crate::scalar::Scalar;

verus! {

/// The mathematical value of a matrix: its shape, and its entries in
/// row-major order (the entry at row `i`, column `j` is `cells[i * cols + j]`).
pub struct Grid<T> {
    pub rows: nat,
    pub cols: nat,
    pub cells: Seq<T>,
}

impl<T> Grid<T> {
    /// The entries fill the shape exactly.
    pub open spec fn wf(self) -> bool {
        self.cells.len() == self.rows * self.cols
    }

    pub open spec fn entry(self, i: int, j: int) -> T {
        self.cells[i * self.cols + j]
    }

    pub open spec fn same_shape(self, other: Grid<T>) -> bool {
        self.rows == other.rows && self.cols == other.cols
    }

    /// A `rows` by `cols` grid whose every entry is `v`.
    pub open spec fn filled(rows: nat, cols: nat, v: T) -> Grid<T> {
        Grid { rows, cols, cells: Seq::new(rows * cols, |p: int| v) }
    }

    /// A single column holding `cells` from top to bottom.
    pub open spec fn column(cells: Seq<T>) -> Grid<T> {
        Grid { rows: cells.len(), cols: 1, cells }
    }

    /// `f` applied to every entry, shape kept.
    pub open spec fn mapped(self, f: spec_fn(T) -> T) -> Grid<T> {
        Grid { rows: self.rows, cols: self.cols, cells: Seq::new(self.cells.len(), |p: int| f(self.cells[p])) }
    }

    /// Rows and columns exchanged: entry `(j, i)` of the result is entry `(i, j)` of `self`.
    pub open spec fn transposed(self) -> Grid<T> {
        Grid {
            rows: self.cols,
            cols: self.rows,
            cells: Seq::new(
                self.cols * self.rows,
                |p: int| self.entry(p % (self.rows as int), p / (self.rows as int)),
            ),
        }
    }
}

impl<T: Scalar> Grid<T> {
    /// Entry-wise sum.
    pub open spec fn sum(self, other: Grid<T>) -> Grid<T> {
        Grid {
            rows: self.rows,
            cols: self.cols,
            cells: Seq::new(self.cells.len(), |p: int| T::plus_spec(self.cells[p], other.cells[p])),
        }
    }

    /// Entry-wise difference `self - other`.
    pub open spec fn difference(self, other: Grid<T>) -> Grid<T> {
        Grid {
            rows: self.rows,
            cols: self.cols,
            cells: Seq::new(self.cells.len(), |p: int| T::minus_spec(self.cells[p], other.cells[p])),
        }
    }

    /// Entry-wise (Hadamard) product.
    pub open spec fn hadamard(self, other: Grid<T>) -> Grid<T> {
        Grid {
            rows: self.rows,
            cols: self.cols,
            cells: Seq::new(self.cells.len(), |p: int| T::times_spec(self.cells[p], other.cells[p])),
        }
    }

    /// Every entry multiplied by `k` on the right.
    pub open spec fn scaled(self, k: T) -> Grid<T> {
        Grid {
            rows: self.rows,
            cols: self.cols,
            cells: Seq::new(self.cells.len(), |p: int| T::times_spec(self.cells[p], k)),
        }
    }

    /// The running sum `0 + a[i][0]*b[0][j] + ... + a[i][n-1]*b[n-1][j]`,
    /// accumulated from the left with `k` ascending.
    pub open spec fn dot_prefix(self, other: Grid<T>, i: int, j: int, n: nat) -> T
        decreases n,
    {
        if n == 0 {
            T::zero_spec()
        } else {
            T::plus_spec(
                self.dot_prefix(other, i, j, (n - 1) as nat),
                T::times_spec(self.entry(i, n - 1), other.entry(n - 1, j)),
            )
        }
    }

    /// The matrix product `self * other`.
    pub open spec fn product(self, other: Grid<T>) -> Grid<T> {
        Grid {
            rows: self.rows,
            cols: other.cols,
            cells: Seq::new(
                self.rows * other.cols,
                |p: int| self.dot_prefix(other, p / (other.cols as int), p % (other.cols as int), self.cols),
            ),
        }
    }
}

/// Position `(i, j)` of a `r` by `c` grid lies inside it, and division by `c`
/// recovers the row and the column.
pub proof fn lemma_row_major(i: int, j: int, r: int, c: int)
    requires
        0 <= i < r,
        0 <= j < c,
    ensures
        0 <= i * c + j < r * c,
        (i * c + j) / c == i,
        (i * c + j) % c == j,
{
    assert(0 <= i * c + j < r * c) by (nonlinear_arith)
        requires
            0 <= i < r,
            0 <= j < c,
    ;
    lemma_fundamental_div_mod_converse(i * c + j, c, i, j);
}

/// Every offset into a `r` by `c` grid is the offset of one row and column.
pub proof fn lemma_row_major_inverse(p: int, r: int, c: int)
    requires
        0 <= p < r * c,
        0 <= r,
    ensures
        c > 0,
        0 <= p / c < r,
        0 <= p % c < c,
        p == (p / c) * c + p % c,
{
    assert(c > 0) by (nonlinear_arith)
        requires
            0 <= p < r * c,
            0 <= r,
    ;
    lemma_fundamental_div_mod(p, c);
    let q = p / c;
    let m = p % c;
    assert(0 <= m < c);
    assert(q * c == c * q) by (nonlinear_arith);
    assert(0 <= q < r) by (nonlinear_arith)
        requires
            p == c * q + m,
            0 <= m < c,
            0 <= p < r * c,
            c > 0,
    ;
}

/// A copy of `v` with the same entries.
pub(crate) fn copy_values<T: Copy>(v: &Vec<T>) -> (r: Vec<T>)
    ensures
        r@ == v@,
{
    let mut r: Vec<T> = Vec::with_capacity(v.len());
    let mut p: usize = 0;
    while p < v.len()
        invariant
            p <= v.len(),
            r@ == v@.subrange(0, p as int),
        decreases v.len() - p,
    {
        r.push(v[p]);
        p = p + 1;
        assert(r@ =~= v@.subrange(0, p as int));
    }
    assert(r@ =~= v@);
    r
}

/// A dense matrix stored row by row.
#[derive(Debug, Clone, PartialEq)]
pub struct Matrix<T> {
    pub rows: usize,
    pub cols: usize,
    pub data: Vec<T>,
}

impl<T> View for Matrix<T> {
    type V = Grid<T>;

    open spec fn view(&self) -> Grid<T> {
        Grid { rows: self.rows as nat, cols: self.cols as nat, cells: self.data@ }
    }
}

impl<T: Copy> Matrix<T> {
    /// Wraps `data` as a `rows` by `cols` matrix.
    pub fn new(rows: usize, cols: usize, data: Vec<T>) -> (r: Matrix<T>)
        requires
            data.len() == rows * cols,
        ensures
            r@ == (Grid { rows: rows as nat, cols: cols as nat, cells: data@ }),
            r@.wf(),
    {
        Matrix { rows, cols, data }
    }

    /// A single-column matrix holding `values` from top to bottom.
    pub fn from_vector(values: Vec<T>) -> (r: Matrix<T>)
        ensures
            r@ == Grid::column(values@),
            r@.wf(),
    {
        let rows = values.len();
        Matrix { rows, cols: 1, data: values }
    }

    /// An independent matrix with the same shape and entries.
    pub fn duplicate(&self) -> (r: Matrix<T>)
        ensures
            r@ == self@,
    {
        Matrix { rows: self.rows, cols: self.cols, data: copy_values(&self.data) }
    }

    /// The transpose: a `cols` by `rows` matrix whose entry `(j, i)` is entry `(i, j)` of `self`.
    pub fn transpose(&self) -> (r: Matrix<T>)
        requires
            self@.wf(),
        ensures
            r@ == self@.transposed(),
            r@.wf(),
    {
        let rows = self.rows;
        let cols = self.cols;
        let mut data: Vec<T> = Vec::with_capacity(self.data.len());
        let mut j: usize = 0;
        while j < cols
            invariant
                self@.wf(),
                rows == self.rows,
                cols == self.cols,
                j <= cols,
                data.len() == j * rows,
                forall|p: int| 0 <= p < data.len() ==> #[trigger] data@[p] == self@.transposed().cells[p],
            decreases cols - j,
        {
            let mut i: usize = 0;
            while i < rows
                invariant
                    self@.wf(),
                    rows == self.rows,
                    cols == self.cols,
                    j < cols,
                    i <= rows,
                    data.len() == j * rows + i,
                    forall|p: int| 0 <= p < data.len() ==> #[trigger] data@[p] == self@.transposed().cells[p],
                decreases rows - i,
            {
                proof {
                    lemma_row_major(i as int, j as int, rows as int, cols as int);
                    lemma_row_major(j as int, i as int, cols as int, rows as int);
                    assert(i * cols + j < self.data.len());
                }
                data.push(self.data[i * cols + j]);
                i = i + 1;
            }
            proof {
                assert((j + 1) * rows == j * rows + rows) by (nonlinear_arith);
            }
            j = j + 1;
        }
        proof {
            assert(cols * rows == rows * cols) by (nonlinear_arith);
        }
        assert(data@ =~= self@.transposed().cells);
        Matrix { rows: cols, cols: rows, data }
    }

    /// Applies `f` to every entry, keeping shape and order. `self` is left as it is.
    pub fn map<F: Fn(T) -> T>(&self, f: F) -> (r: Matrix<T>)
        requires
            forall|p: int| 0 <= p < self.data.len() ==> f.requires((self.data@[p],)),
        ensures
            r.rows == self.rows,
            r.cols == self.cols,
            r.data.len() == self.data.len(),
            forall|p: int| 0 <= p < self.data.len() ==> f.ensures((self.data@[p],), #[trigger] r.data@[p]),
    {
        let mut data: Vec<T> = Vec::with_capacity(self.data.len());
        let mut p: usize = 0;
        while p < self.data.len()
            invariant
                p <= self.data.len(),
                data.len() == p,
                forall|q: int| 0 <= q < self.data.len() ==> f.requires((self.data@[q],)),
                forall|q: int| 0 <= q < p ==> f.ensures((self.data@[q],), #[trigger] data@[q]),
            decreases self.data.len() - p,
        {
            let y = f(self.data[p]);
            data.push(y);
            p = p + 1;
        }
        Matrix { rows: self.rows, cols: self.cols, data }
    }
}

impl<T: Copy> From<Vec<T>> for Matrix<T> {
    /// A single-column matrix holding `values` from top to bottom.
    fn from(values: Vec<T>) -> (r: Matrix<T>) {
        let rows = values.len();
        Matrix { rows, cols: 1, data: values }
    }
}

impl<T: Copy> vstd::std_specs::convert::FromSpecImpl<Vec<T>> for Matrix<T> {
    open spec fn obeys_from_spec() -> bool {
        true
    }

    open spec fn from_spec(values: Vec<T>) -> Matrix<T> {
        Matrix { rows: values.len(), cols: 1, data: values }
    }
}

impl<T: Scalar> Matrix<T> {
    /// A `rows` by `cols` matrix of zeros.
    pub fn zeros(rows: usize, cols: usize) -> (r: Matrix<T>)
        requires
            rows * cols <= usize::MAX,
        ensures
            r@ == Grid::filled(rows as nat, cols as nat, T::zero_spec()),
            r@.wf(),
    {
        let n = rows * cols;
        let mut data: Vec<T> = Vec::with_capacity(n);
        let mut p: usize = 0;
        while p < n
            invariant
                p <= n,
                n == rows * cols,
                data.len() == p,
                forall|q: int| 0 <= q < p ==> #[trigger] data@[q] == T::zero_spec(),
            decreases n - p,
        {
            data.push(T::zero());
            p = p + 1;
        }
        assert(data@ =~= Grid::filled(rows as nat, cols as nat, T::zero_spec()).cells);
        Matrix { rows, cols, data }
    }

    /// Entry-wise sum of two matrices of one shape.
    pub fn add(&self, other: &Matrix<T>) -> (r: Matrix<T>)
        requires
            self@.wf(),
            other@.wf(),
            self@.same_shape(other@),
        ensures
            r@ == self@.sum(other@),
            r@.wf(),
    {
        let mut data: Vec<T> = Vec::with_capacity(self.data.len());
        let mut p: usize = 0;
        while p < self.data.len()
            invariant
                self@.wf(),
                other@.wf(),
                self@.same_shape(other@),
                p <= self.data.len(),
                data.len() == p,
                forall|q: int| 0 <= q < p ==> #[trigger] data@[q] == T::plus_spec(self.data@[q], other.data@[q]),
            decreases self.data.len() - p,
        {
            data.push(T::plus(self.data[p], other.data[p]));
            p = p + 1;
        }
        assert(data@ =~= self@.sum(other@).cells);
        Matrix { rows: self.rows, cols: self.cols, data }
    }

    /// Entry-wise difference `self - other` of two matrices of one shape.
    pub fn subtract(&self, other: &Matrix<T>) -> (r: Matrix<T>)
        requires
            self@.wf(),
            other@.wf(),
            self@.same_shape(other@),
        ensures
            r@ == self@.difference(other@),
            r@.wf(),
    {
        let mut data: Vec<T> = Vec::with_capacity(self.data.len());
        let mut p: usize = 0;
        while p < self.data.len()
            invariant
                self@.wf(),
                other@.wf(),
                self@.same_shape(other@),
                p <= self.data.len(),
                data.len() == p,
                forall|q: int| 0 <= q < p ==> #[trigger] data@[q] == T::minus_spec(self.data@[q], other.data@[q]),
            decreases self.data.len() - p,
        {
            data.push(T::minus(self.data[p], other.data[p]));
            p = p + 1;
        }
        assert(data@ =~= self@.difference(other@).cells);
        Matrix { rows: self.rows, cols: self.cols, data }
    }

    /// Entry-wise (Hadamard) product of two matrices of one shape.
    pub fn elementwise_multiply(&self, other: &Matrix<T>) -> (r: Matrix<T>)
        requires
            self@.wf(),
            other@.wf(),
            self@.same_shape(other@),
        ensures
            r@ == self@.hadamard(other@),
            r@.wf(),
    {
        let mut data: Vec<T> = Vec::with_capacity(self.data.len());
        let mut p: usize = 0;
        while p < self.data.len()
            invariant
                self@.wf(),
                other@.wf(),
                self@.same_shape(other@),
                p <= self.data.len(),
                data.len() == p,
                forall|q: int| 0 <= q < p ==> #[trigger] data@[q] == T::times_spec(self.data@[q], other.data@[q]),
            decreases self.data.len() - p,
        {
            data.push(T::times(self.data[p], other.data[p]));
            p = p + 1;
        }
        assert(data@ =~= self@.hadamard(other@).cells);
        Matrix { rows: self.rows, cols: self.cols, data }
    }

    /// The matrix product `self * other`; each entry is accumulated from
    /// zero with the inner index ascending.
    pub fn dot_multiply(&self, other: &Matrix<T>) -> (r: Matrix<T>)
        requires
            self@.wf(),
            other@.wf(),
            self.cols == other.rows,
            self.rows * other.cols <= usize::MAX,
        ensures
            r@ == self@.product(other@),
            r@.wf(),
    {
        let n = self.rows * other.cols;
        let mut data: Vec<T> = Vec::with_capacity(n);
        let mut i: usize = 0;
        while i < self.rows
            invariant
                self@.wf(),
                other@.wf(),
                self.cols == other.rows,
                n == self.rows * other.cols,
                i <= self.rows,
                data.len() == i * other.cols,
                forall|p: int| 0 <= p < data.len() ==> #[trigger] data@[p] == self@.product(other@).cells[p],
            decreases self.rows - i,
        {
            let mut j: usize = 0;
            while j < other.cols
                invariant
                    self@.wf(),
                    other@.wf(),
                    self.cols == other.rows,
                    n == self.rows * other.cols,
                    i < self.rows,
                    j <= other.cols,
                    data.len() == i * other.cols + j,
                    forall|p: int| 0 <= p < data.len() ==> #[trigger] data@[p] == self@.product(other@).cells[p],
                decreases other.cols - j,
            {
                let mut sum = T::zero();
                let mut k: usize = 0;
                while k < self.cols
                    invariant
                        self@.wf(),
                        other@.wf(),
                        self.cols == other.rows,
                        i < self.rows,
                        j < other.cols,
                        k <= self.cols,
                        sum == self@.dot_prefix(other@, i as int, j as int, k as nat),
                    decreases self.cols - k,
                {
                    proof {
                        lemma_row_major(i as int, k as int, self.rows as int, self.cols as int);
                        lemma_row_major(k as int, j as int, other.rows as int, other.cols as int);
                        assert(i * self.cols + k < self.data.len());
                        assert(k * other.cols + j < other.data.len());
                    }
                    sum = T::plus(sum, T::times(self.data[i * self.cols + k], other.data[k * other.cols + j]));
                    k = k + 1;
                }
                proof {
                    lemma_row_major(i as int, j as int, self.rows as int, other.cols as int);
                }
                data.push(sum);
                j = j + 1;
            }
            proof {
                assert((i + 1) * other.cols == i * other.cols + other.cols) by (nonlinear_arith);
            }
            i = i + 1;
        }
        assert(data@ =~= self@.product(other@).cells);
        Matrix { rows: self.rows, cols: other.cols, data }
    }

    /// Whether the two matrices have one shape and pairwise equal entries.
    pub fn equals(&self, other: &Matrix<T>) -> (r: bool)
        requires
            self@.wf(),
            other@.wf(),
        ensures
            r == (self@.same_shape(other@) && forall|p: int|
                0 <= p < self.data.len() ==> T::same_spec(#[trigger] self.data@[p], other.data@[p])),
    {
        if self.rows != other.rows || self.cols != other.cols {
            return false;
        }
        let mut p: usize = 0;
        while p < self.data.len()
            invariant
                self@.wf(),
                other@.wf(),
                self@.same_shape(other@),
                p <= self.data.len(),
                forall|q: int| 0 <= q < p ==> T::same_spec(#[trigger] self.data@[q], other.data@[q]),
            decreases self.data.len() - p,
        {
            if !T::same(self.data[p], other.data[p]) {
                return false;
            }
            p = p + 1;
        }
        true
    }
}


/// Shape laws: a sum has the shape of its left operand, a product has the
/// rows of its left operand and the columns of its right one, and
/// transposing twice gives the matrix back.
pub proof fn lemma_shape_laws<T: Scalar>(a: Grid<T>, b: Grid<T>)
    requires
        a.wf(),
    ensures
        a.sum(b).rows == a.rows && a.sum(b).cols == a.cols,
        a.product(b).rows == a.rows && a.product(b).cols == b.cols,
        a.transposed().transposed() == a,
{
    lemma_transpose_involution(a);
}

/// Transposing a well-formed grid twice gives it back.
pub proof fn lemma_transpose_involution<T>(a: Grid<T>)
    requires
        a.wf(),
    ensures
        a.transposed().transposed() == a,
{
    let t = a.transposed();
    let tt = t.transposed();
    let r = a.rows as int;
    let c = a.cols as int;
    assert(c * r == r * c) by (nonlinear_arith);
    assert(tt.cells.len() == a.cells.len());
    assert forall|p: int| 0 <= p < a.cells.len() implies tt.cells[p] == a.cells[p] by {
        lemma_row_major_inverse(p, r, c);
        let i = p / c;
        let j = p % c;
        lemma_row_major(j, i, c, r);
        assert(tt.cells[p] == t.entry(j, i));
        assert(t.entry(j, i) == t.cells[j * r + i]);
        assert(t.cells[j * r + i] == a.entry(i, j));
    }
    assert(tt.cells =~= a.cells);
}

/// Adding a matrix of zeros changes nothing, for any scalar type whose zero
/// is a right identity of addition.
pub proof fn lemma_add_zeros<T: Scalar>(a: Grid<T>)
    requires
        a.wf(),
        forall|x: T| T::plus_spec(x, T::zero_spec()) == x,
    ensures
        a.sum(Grid::filled(a.rows, a.cols, T::zero_spec())) == a,
{
    assert(a.sum(Grid::filled(a.rows, a.cols, T::zero_spec())).cells =~= a.cells);
}

/// Multiplying entry-wise by a matrix of ones changes nothing, for any scalar
/// type whose one is a right identity of multiplication.
pub proof fn lemma_multiply_ones<T: Scalar>(a: Grid<T>)
    requires
        a.wf(),
        forall|x: T| T::times_spec(x, T::one_spec()) == x,
    ensures
        a.hadamard(Grid::filled(a.rows, a.cols, T::one_spec())) == a,
{
    assert(a.hadamard(Grid::filled(a.rows, a.cols, T::one_spec())).cells =~= a.cells);
}

/// Mapping with `f` and then with `g` gives the same matrix as mapping once
/// with their composition `h`, when `h` returns a single result for each
/// argument (a pure function).
pub proof fn lemma_map_compose<T, F: Fn(T) -> T, G: Fn(T) -> T, H: Fn(T) -> T>(
    a: Matrix<T>,
    b: Matrix<T>,
    c: Matrix<T>,
    d: Matrix<T>,
    f: F,
    g: G,
    h: H,
)
    requires
        b.rows == a.rows && b.cols == a.cols && b.data.len() == a.data.len(),
        forall|p: int| 0 <= p < a.data.len() ==> f.ensures((a.data@[p],), #[trigger] b.data@[p]),
        c.rows == b.rows && c.cols == b.cols && c.data.len() == b.data.len(),
        forall|p: int| 0 <= p < b.data.len() ==> g.ensures((b.data@[p],), #[trigger] c.data@[p]),
        d.rows == a.rows && d.cols == a.cols && d.data.len() == a.data.len(),
        forall|p: int| 0 <= p < a.data.len() ==> h.ensures((a.data@[p],), #[trigger] d.data@[p]),
        forall|x: T, y: T, z: T| f.ensures((x,), y) && g.ensures((y,), z) ==> h.ensures((x,), z),
        forall|x: T, y: T, z: T| h.ensures((x,), y) && h.ensures((x,), z) ==> y == z,
    ensures
        c@ == d@,
{
    assert forall|p: int| 0 <= p < a.data.len() implies c.data@[p] == d.data@[p] by {
        assert(f.ensures((a.data@[p],), b.data@[p]));
        assert(g.ensures((b.data@[p],), c.data@[p]));
        assert(h.ensures((a.data@[p],), c.data@[p]));
        assert(h.ensures((a.data@[p],), d.data@[p]));
    }
    assert(c.data@ =~= d.data@);
}

} // verus!
