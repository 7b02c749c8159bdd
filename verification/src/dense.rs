use vstd::prelude::*;

verus! {

/// A dense rectangular matrix of doubles, kept in nalgebra's dynamically
/// sized `DMatrix`; each cell is held as its IEEE-754 bit pattern. What is
/// known of it is what the methods below say of `dense_rows` and
/// `dense_ncols`.
#[verifier::external_body]
#[derive(Debug)]
pub struct DenseMatrix {
    inner: nalgebra::DMatrix<u64>,
}

/// The cells of a dense matrix, row by row.
pub uninterp spec fn dense_rows(m: DenseMatrix) -> Seq<Seq<u64>>;

/// The number of columns of a dense matrix (which a matrix without rows still has).
pub uninterp spec fn dense_ncols(m: DenseMatrix) -> nat;

/// A dense column vector of doubles, kept in nalgebra's dynamically sized
/// `DVector`; each item is held as its IEEE-754 bit pattern. What is known of
/// it is what the methods below say of `dense_items`.
#[verifier::external_body]
#[derive(Debug)]
pub struct DenseVector {
    inner: nalgebra::DVector<u64>,
}

/// The items of a dense vector, in order.
pub uninterp spec fn dense_items(v: DenseVector) -> Seq<u64>;

/// What a dense matrix holds: its rows and its column count.
pub struct Grid {
    /// The cells, row by row.
    pub rows: Seq<Seq<u64>>,
    /// The number of columns.
    pub ncols: nat,
}

impl Grid {
    /// Every row is as long as the column count.
    pub open spec fn wf(self) -> bool {
        forall|i: int| 0 <= i < self.rows.len() ==> (#[trigger] self.rows[i]).len() == self.ncols
    }

    /// The grid with rows and columns exchanged.
    pub open spec fn transposed(self) -> Grid {
        Grid {
            rows: Seq::new(
                self.ncols,
                |j: int| Seq::new(self.rows.len(), |i: int| self.rows[i][j]),
            ),
            ncols: self.rows.len(),
        }
    }
}

impl View for DenseMatrix {
    type V = Grid;

    open spec fn view(&self) -> Grid {
        Grid { rows: dense_rows(*self), ncols: dense_ncols(*self) }
    }
}

impl View for DenseVector {
    type V = Seq<u64>;

    open spec fn view(&self) -> Seq<u64> {
        dense_items(*self)
    }
}

impl DenseMatrix {
    /// `DMatrix::from_row_slice`: the matrix of the given shape whose cell
    /// `(i, j)` is item `i * cols + j` of the slice. The backend panics unless
    /// the slice holds exactly `rows * cols` items.
    #[verifier::external_body]
    pub(crate) fn build(rows: usize, cols: usize, cells: &Vec<u64>) -> (m: DenseMatrix)
        requires
            cells@.len() == rows * cols,
        ensures
            dense_rows(m).len() == rows,
            dense_ncols(m) == cols,
            forall|i: int| 0 <= i < rows ==> (#[trigger] dense_rows(m)[i]).len() == cols,
            forall|i: int, j: int|
                0 <= i < rows && 0 <= j < cols ==> #[trigger] dense_rows(m)[i][j] == cells@[i
                    * cols + j],
    {
        DenseMatrix { inner: nalgebra::DMatrix::from_row_slice(rows, cols, cells.as_slice()) }
    }

    /// `Matrix::nrows`: the number of rows.
    #[verifier::external_body]
    pub(crate) fn row_count(&self) -> (n: usize)
        ensures
            n == dense_rows(*self).len(),
    {
        self.inner.nrows()
    }

    /// `Matrix::ncols`: the number of columns, which is the length of every row.
    #[verifier::external_body]
    pub(crate) fn column_count(&self) -> (n: usize)
        ensures
            n == dense_ncols(*self),
            forall|i: int|
                0 <= i < dense_rows(*self).len() ==> (#[trigger] dense_rows(*self)[i]).len() == n,
    {
        self.inner.ncols()
    }

    /// Indexing by `(row, column)`: the cell at that place. The backend panics
    /// on an index outside the matrix.
    #[verifier::external_body]
    pub(crate) fn cell(&self, i: usize, j: usize) -> (bits: u64)
        requires
            i < dense_rows(*self).len(),
            j < dense_ncols(*self),
        ensures
            bits == dense_rows(*self)[i as int][j as int],
    {
        self.inner[(i, j)]
    }

    /// `Matrix::transpose`: a new matrix whose cell `(j, i)` is cell `(i, j)` of this one.
    #[verifier::external_body]
    pub(crate) fn flipped(&self) -> (t: DenseMatrix)
        ensures
            dense_rows(t).len() == dense_ncols(*self),
            dense_ncols(t) == dense_rows(*self).len(),
            forall|j: int|
                0 <= j < dense_ncols(*self) ==> (#[trigger] dense_rows(t)[j]).len() == dense_rows(
                    *self,
                ).len(),
            forall|i: int, j: int|
                0 <= i < dense_rows(*self).len() && 0 <= j < dense_ncols(*self)
                    ==> #[trigger] dense_rows(t)[j][i] == dense_rows(*self)[i][j],
    {
        DenseMatrix { inner: self.inner.transpose() }
    }

    /// The matrix of the given shape whose cell `(i, j)` is item `i * cols + j`
    /// of `cells`; `None` unless `cells` holds exactly `rows * cols` items.
    pub fn from_cells(rows: usize, cols: usize, cells: &Vec<u64>) -> (made: Option<DenseMatrix>)
        ensures
            made is Some <==> cells@.len() == rows * cols,
            made matches Some(m) ==> {
                &&& m@.wf()
                &&& m@.rows.len() == rows
                &&& m@.ncols == cols
                &&& forall|i: int, j: int|
                    0 <= i < rows && 0 <= j < cols ==> #[trigger] m@.rows[i][j] == cells@[i
                        * cols + j]
            },
    {
        let given = cells.len();
        match rows.checked_mul(cols) {
            Some(total) => {
                if total == given {
                    Some(DenseMatrix::build(rows, cols, cells))
                } else {
                    None
                }
            },
            None => None,
        }
    }

    /// The number of rows.
    pub fn nrows(&self) -> (n: usize)
        ensures
            n == self@.rows.len(),
    {
        self.row_count()
    }

    /// The number of columns.
    pub fn ncols(&self) -> (n: usize)
        ensures
            n == self@.ncols,
            self@.wf(),
    {
        self.column_count()
    }

    /// The cell in row `i` and column `j`, if the matrix has one there.
    pub fn get(&self, i: usize, j: usize) -> (bits: Option<u64>)
        ensures
            bits == if i < self@.rows.len() && j < self@.ncols {
                Some(self@.rows[i as int][j as int])
            } else {
                None
            },
    {
        if i < self.row_count() && j < self.column_count() {
            Some(self.cell(i, j))
        } else {
            None
        }
    }
}

impl DenseVector {
    /// `DVector::from_vec`: the vector that holds the given items in order.
    #[verifier::external_body]
    pub(crate) fn build(items: Vec<u64>) -> (v: DenseVector)
        ensures
            dense_items(v) == items@,
    {
        DenseVector { inner: nalgebra::DVector::from_vec(items) }
    }

    /// `Matrix::len`: the number of items.
    #[verifier::external_body]
    pub(crate) fn item_count(&self) -> (n: usize)
        ensures
            n == dense_items(*self).len(),
    {
        self.inner.len()
    }

    /// Indexing by position: the item at that place. The backend panics on an
    /// index outside the vector.
    #[verifier::external_body]
    pub(crate) fn item(&self, i: usize) -> (bits: u64)
        requires
            i < dense_items(*self).len(),
        ensures
            bits == dense_items(*self)[i as int],
    {
        self.inner[i]
    }

    /// The vector that holds the given items in order.
    pub fn from_items(items: Vec<u64>) -> (v: DenseVector)
        ensures
            v@ == items@,
    {
        DenseVector::build(items)
    }

    /// The number of items.
    pub fn len(&self) -> (n: usize)
        ensures
            n == self@.len(),
    {
        self.item_count()
    }

    /// The item at position `i`, if the vector has one there.
    pub fn get(&self, i: usize) -> (bits: Option<u64>)
        ensures
            bits == if i < self@.len() {
                Some(self@[i as int])
            } else {
                None
            },
    {
        if i < self.item_count() {
            Some(self.item(i))
        } else {
            None
        }
    }
}

} // verus!
