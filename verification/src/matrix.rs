use crate::dense::{DenseMatrix, DenseVector, Grid};
use crate::error::ArithmeticError;
use crate::float::{float_bits_from_int, float_bits_of};
use crate::matrix_lemmas::{lemma_horzcat_shape, lemma_transpose_shape, lemma_vertcat_shape};
use crate::shape::{
    as_nats, claimed_shape, flatten, flattened, has_regular_shape, is_rectangular,
    lemma_regular_matrix, matrix_size,
};
use crate::value::{lemma_array_view, Node, Value};
use vstd::prelude::*;

verus! {

/// Whether a node is an integer or a float.
pub open spec fn is_number(node: Node) -> bool {
    node is Int || node is Float
}

/// The bit pattern of the double that stands for a number in a dense matrix:
/// a float as it is, an integer widened to the nearest double.
pub open spec fn number_bits(node: Node) -> u64 {
    match node {
        Node::Int(i) => float_bits_of(i as int) as u64,
        Node::Float(bits) => bits,
        _ => 0,
    }
}

/// The items of a row; none for a node that is not an array.
pub open spec fn row_items(row: Node) -> Seq<Node> {
    match row {
        Node::Array(items) => items,
        _ => Seq::empty(),
    }
}

/// The number of columns that a nested array claims: the length of its first row.
pub open spec fn width_of(m: Seq<Node>) -> nat {
    if m.len() > 0 {
        row_items(m[0]).len()
    } else {
        0
    }
}

/// What is wrong with one row of a matrix that is `width` columns wide, if
/// anything: it is no array, else its length differs, else it holds a
/// non-number.
pub open spec fn row_fault(row: Node, width: nat) -> Option<ArithmeticError> {
    match row {
        Node::Array(items) => if items.len() != width {
            Some(ArithmeticError::RaggedRows)
        } else if exists|j: int| 0 <= j < items.len() && !is_number(#[trigger] items[j]) {
            Some(ArithmeticError::NonNumeric)
        } else {
            None
        },
        _ => Some(ArithmeticError::RowsNotArrays),
    }
}

/// The fault of the first faulty row among the first `k` rows, if any.
pub open spec fn fault_upto(m: Seq<Node>, k: nat) -> Option<ArithmeticError>
    decreases k,
{
    if k == 0 {
        None
    } else {
        match fault_upto(m, (k - 1) as nat) {
            Some(e) => Some(e),
            None => row_fault(m[k - 1], width_of(m)),
        }
    }
}

/// Why a nested array is no rectangular matrix of numbers: the fault of its
/// first faulty row. `None` for a rectangular matrix of numbers.
pub open spec fn matrix_fault(m: Seq<Node>) -> Option<ArithmeticError> {
    fault_upto(m, m.len())
}

/// A faulty row that no faulty row precedes decides the fault of the matrix.
pub proof fn lemma_first_fault(m: Seq<Node>, i: nat, k: nat)
    requires
        i < k <= m.len(),
        fault_upto(m, i) is None,
        row_fault(m[i as int], width_of(m)) is Some,
    ensures
        fault_upto(m, k) == row_fault(m[i as int], width_of(m)),
    decreases k,
{
    if k > i + 1 {
        lemma_first_fault(m, i, (k - 1) as nat);
    }
}

/// A row is without fault exactly when it is an array of the wanted length
/// that holds numbers only.
pub proof fn lemma_row_fault(row: Node, width: nat)
    ensures
        row_fault(row, width) is None <==> row is Array && row_items(row).len() == width
            && all_numbers(row_items(row)),
{
}

/// A nested array is a rectangular matrix of numbers exactly when each of its
/// rows is an array as long as the first row that holds numbers only.
pub proof fn lemma_no_fault(m: Seq<Node>)
    ensures
        matrix_fault(m) is None <==> forall|i: int|
            0 <= i < m.len() ==> (#[trigger] m[i]) is Array && row_items(m[i]).len() == width_of(m)
                && all_numbers(row_items(m[i])),
{
    lemma_no_fault_upto(m, m.len());
}

proof fn lemma_no_fault_upto(m: Seq<Node>, k: nat)
    requires
        k <= m.len(),
    ensures
        fault_upto(m, k) is None <==> forall|i: int|
            0 <= i < k ==> (#[trigger] m[i]) is Array && row_items(m[i]).len() == width_of(m)
                && all_numbers(row_items(m[i])),
    decreases k,
{
    if k > 0 {
        lemma_no_fault_upto(m, (k - 1) as nat);
        lemma_row_fault(m[k - 1], width_of(m));
    }
}

/// The dense form of a rectangular matrix of numbers.
pub open spec fn dense_form(m: Seq<Node>) -> Grid {
    Grid {
        rows: Seq::new(
            m.len(),
            |i: int| Seq::new(width_of(m), |j: int| number_bits(row_items(m[i])[j])),
        ),
        ncols: width_of(m),
    }
}

/// The floats that stand for a run of dense cells.
pub open spec fn float_items(cells: Seq<u64>) -> Seq<Node> {
    Seq::new(cells.len(), |j: int| Node::Float(cells[j]))
}

/// The nested array of floats that stands for the rows of a dense matrix.
pub open spec fn float_rows(rows: Seq<Seq<u64>>) -> Seq<Node> {
    Seq::new(rows.len(), |i: int| Node::Array(float_items(rows[i])))
}

/// A flat sequence wrapped as the single row of a matrix.
pub open spec fn row_of(items: Seq<Node>) -> Seq<Node> {
    seq![Node::Array(items)]
}

/// A flat sequence with each item wrapped as a row of its own.
pub open spec fn column_of(items: Seq<Node>) -> Seq<Node> {
    Seq::new(items.len(), |i: int| Node::Array(seq![items[i]]))
}

/// The row-vector form of a matrix: itself where it is a rectangle of
/// scalars of shape `[1, n]`, its scalars as one row where it is one of shape
/// `[n, 1]`, else none.
pub open spec fn as_row_of(m: Seq<Node>) -> Option<Seq<Node>> {
    let shape = claimed_shape(m);
    if is_rectangular(m) && shape[0] == 1 {
        Some(m)
    } else if is_rectangular(m) && shape[1] == 1 {
        Some(row_of(flattened(m)))
    } else {
        None
    }
}

/// The column-vector form of a matrix: itself where it is a rectangle of
/// scalars of shape `[n, 1]`, its scalars one to a row where it is one of
/// shape `[1, n]`, else none.
pub open spec fn as_column_of(m: Seq<Node>) -> Option<Seq<Node>> {
    let shape = claimed_shape(m);
    if is_rectangular(m) && shape[1] == 1 {
        Some(m)
    } else if is_rectangular(m) && shape[0] == 1 {
        Some(column_of(flattened(m)))
    } else {
        None
    }
}

/// The transpose of a rectangular matrix of numbers, as floats.
pub open spec fn transpose_of(m: Seq<Node>) -> Seq<Node> {
    float_rows(dense_form(m).transposed().rows)
}

/// Why two nested arrays cannot be joined side by side: a fault of the left
/// one, else a fault of the right one, else differing row counts.
pub open spec fn horzcat_fault(a: Seq<Node>, b: Seq<Node>) -> Option<ArithmeticError> {
    if matrix_fault(a) is Some {
        matrix_fault(a)
    } else if matrix_fault(b) is Some {
        matrix_fault(b)
    } else if a.len() != b.len() {
        Some(ArithmeticError::RowCountMismatch)
    } else {
        None
    }
}

/// Two matrices joined side by side, as floats: row `i` is row `i` of the
/// left one followed by row `i` of the right one.
pub open spec fn horzcat_of(a: Seq<Node>, b: Seq<Node>) -> Seq<Node> {
    Seq::new(
        a.len(),
        |i: int| Node::Array(float_items(dense_form(a).rows[i] + dense_form(b).rows[i])),
    )
}

/// Why two nested arrays cannot be stacked: a fault of the upper one, else a
/// fault of the lower one, else differing column counts.
pub open spec fn vertcat_fault(a: Seq<Node>, b: Seq<Node>) -> Option<ArithmeticError> {
    if matrix_fault(a) is Some {
        matrix_fault(a)
    } else if matrix_fault(b) is Some {
        matrix_fault(b)
    } else if width_of(a) != width_of(b) {
        Some(ArithmeticError::ColumnCountMismatch)
    } else {
        None
    }
}

/// Two matrices stacked, as floats: the rows of the upper one, then those of
/// the lower one.
pub open spec fn vertcat_of(a: Seq<Node>, b: Seq<Node>) -> Seq<Node> {
    float_rows(dense_form(a).rows + dense_form(b).rows)
}

/// Whether every item of a flat sequence is a number.
pub open spec fn all_numbers(items: Seq<Node>) -> bool {
    forall|i: int| 0 <= i < items.len() ==> is_number(#[trigger] items[i])
}

/// The dense form of a flat sequence of numbers.
pub open spec fn vector_bits(items: Seq<Node>) -> Seq<u64> {
    Seq::new(items.len(), |i: int| number_bits(items[i]))
}

/// A nested array that is to be treated as a matrix.
#[derive(Debug)]
pub struct RhaiMatrix(Vec<Value>);

impl View for RhaiMatrix {
    type V = Seq<Node>;

    closed spec fn view(&self) -> Seq<Node> {
        self.0.deep_view()
    }
}

impl Clone for RhaiMatrix {
    fn clone(&self) -> (copy: RhaiMatrix)
        ensures
            copy@ == self@,
    {
        let items = self.0.clone();
        assert(items.deep_view() =~= self.0.deep_view());
        RhaiMatrix(items)
    }
}

impl RhaiMatrix {
    /// Treats a nested array as a matrix.
    pub fn from_array(arr: Vec<Value>) -> (m: RhaiMatrix)
        ensures
            m@ == arr.deep_view(),
    {
        RhaiMatrix(arr)
    }

    /// Hands the nested array back.
    pub fn to_array(self) -> (arr: Vec<Value>)
        ensures
            arr.deep_view() == self@,
    {
        self.0
    }

    /// Converts the matrix into a dense matrix of doubles, widening integers.
    /// An empty array gives a matrix without rows or columns. The first row
    /// that is no array, differs in length from the first row or holds a
    /// non-number is reported.
    pub fn to_dmatrix(&self) -> (result: Result<DenseMatrix, ArithmeticError>)
        ensures
            match result {
                Ok(dense) => matrix_fault(self@) is None && dense@ == dense_form(self@),
                Err(e) => matrix_fault(self@) == Some(e),
            },
    {
        let rows = self.0.len();
        let ghost m = self@;
        if rows == 0 {
            let cells: Vec<u64> = Vec::new();
            let dense = DenseMatrix::build(0, 0, &cells);
            assert(dense@.rows =~= dense_form(m).rows);
            return Ok(dense);
        }
        let cols = match &self.0[0] {
            Value::Array(first) => {
                proof {
                    lemma_array_view(*first);
                }
                first.len()
            },
            _ => {
                proof {
                    lemma_first_fault(m, 0, rows as nat);
                }
                return Err(ArithmeticError::RowsNotArrays);
            },
        };
        assert(cols == width_of(m));
        let mut cells: Vec<u64> = Vec::new();
        let mut i: usize = 0;
        while i < rows
            invariant
                m == self@,
                rows == self.0.len(),
                cols == width_of(m),
                i <= rows,
                fault_upto(m, i as nat) is None,
                cells@.len() == i * cols,
                forall|r: int, c: int|
                    0 <= r < i && 0 <= c < cols ==> #[trigger] cells@[r * cols + c] == number_bits(
                        row_items(m[r])[c],
                    ),
            decreases rows - i,
        {
            match &self.0[i] {
                Value::Array(row) => {
                    proof {
                        lemma_array_view(*row);
                    }
                    if row.len() != cols {
                        proof {
                            lemma_first_fault(m, i as nat, rows as nat);
                        }
                        return Err(ArithmeticError::RaggedRows);
                    }
                    let ghost before = cells@;
                    let mut j: usize = 0;
                    while j < cols
                        invariant
                            m == self@,
                            i < rows,
                            rows == self.0.len(),
                            cols == width_of(m),
                            fault_upto(m, i as nat) is None,
                            self.0@[i as int] == Value::Array(*row),
                            m[i as int] == Node::Array(row.deep_view()),
                            row.len() == cols,
                            j <= cols,
                            cells@.len() == i * cols + j,
                            cells@.subrange(0, i * cols) == before,
                            before.len() == i * cols,
                            forall|c: int| 0 <= c < j ==> is_number(#[trigger] row.deep_view()[c]),
                            forall|c: int|
                                0 <= c < j ==> #[trigger] cells@[i * cols + c] == number_bits(
                                    row.deep_view()[c],
                                ),
                        decreases cols - j,
                    {
                        let bits = match &row[j] {
                            Value::Float(bits) => *bits,
                            Value::Int(x) => float_bits_from_int(*x),
                            _ => {
                                proof {
                                    assert(!is_number(row.deep_view()[j as int]));
                                    lemma_first_fault(m, i as nat, rows as nat);
                                }
                                return Err(ArithmeticError::NonNumeric);
                            },
                        };
                        let ghost prior = cells@;
                        cells.push(bits);
                        assert(cells@.subrange(0, i * cols) =~= prior.subrange(0, i * cols));
                        j += 1;
                    }
                    assert(row_fault(m[i as int], cols as nat) is None);
                    assert forall|r: int, c: int| 0 <= r < i + 1 && 0 <= c < cols implies #[trigger] cells@[r
                        * cols + c] == number_bits(row_items(m[r])[c]) by {
                        if r < i {
                            assert(r * cols + c < i * cols) by (nonlinear_arith)
                                requires
                                    0 <= r < i,
                                    0 <= c < cols,
                            ;
                            assert(cells@[r * cols + c] == cells@.subrange(0, i * cols)[r * cols
                                + c]);
                        }
                    }
                    assert(cells@.len() == (i + 1) * cols) by (nonlinear_arith)
                        requires
                            cells@.len() == i * cols + cols,
                    ;
                },
                _ => {
                    proof {
                        lemma_first_fault(m, i as nat, rows as nat);
                    }
                    return Err(ArithmeticError::RowsNotArrays);
                },
            }
            i += 1;
        }
        let dense = DenseMatrix::build(rows, cols, &cells);
        proof {
            assert forall|r: int| 0 <= r < rows implies #[trigger] dense@.rows[r] =~= dense_form(
                m,
            ).rows[r] by {
                assert forall|c: int| 0 <= c < cols implies dense@.rows[r][c] == dense_form(
                    m,
                ).rows[r][c] by {}
            }
            assert(dense@.rows =~= dense_form(m).rows);
        }
        Ok(dense)
    }

    /// Wraps a flat list as a matrix of one row.
    pub fn row_vector(data: Vec<Value>) -> (m: RhaiMatrix)
        ensures
            m@ == row_of(data.deep_view()),
    {
        proof {
            lemma_array_view(data);
        }
        let mut rows: Vec<Value> = Vec::new();
        rows.push(Value::Array(data));
        assert(rows.deep_view() =~= row_of(data.deep_view()));
        RhaiMatrix(rows)
    }

    /// Wraps each item of a flat list as a row of its own.
    pub fn column_vector(data: Vec<Value>) -> (m: RhaiMatrix)
        ensures
            m@ == column_of(data.deep_view()),
    {
        let mut rows: Vec<Value> = Vec::new();
        let ghost items = data.deep_view();
        for item in it: data
            invariant
                items == data.deep_view(),
                rows.len() == it.index(),
                forall|k: int|
                    0 <= k < rows.len() ==> (#[trigger] rows@[k]).deep_view() == Node::Array(
                        seq![items[k]],
                    ),
        {
            let ghost node = item.deep_view();
            let mut row: Vec<Value> = Vec::new();
            row.push(item);
            proof {
                lemma_array_view(row);
                assert(row.deep_view() =~= seq![node]);
            }
            rows.push(Value::Array(row));
        }
        assert(rows.deep_view() =~= column_of(items));
        RhaiMatrix(rows)
    }

    /// The matrix as a row vector; a column vector is reshaped. `None` unless
    /// the matrix is a rectangle of scalars of shape `[1, n]` or `[n, 1]`.
    pub fn as_row(&self) -> (row: Option<RhaiMatrix>)
        ensures
            match row {
                Some(r) => as_row_of(self@) == Some(r@),
                None => as_row_of(self@) is None,
            },
    {
        let shape = matrix_size(&self.0);
        proof {
            assert(shape@.len() == claimed_shape(self@).len());
            lemma_regular_matrix(self@);
        }
        if shape.len() == 2 && has_regular_shape(&self.0) {
            assert(shape@[0] == as_nats(shape@)[0] && shape@[1] == as_nats(shape@)[1]);
            if shape[0] == 1 {
                Some(self.clone())
            } else if shape[1] == 1 {
                Some(RhaiMatrix::row_vector(flatten(&self.0)))
            } else {
                None
            }
        } else {
            None
        }
    }

    /// The matrix as a column vector; a row vector is reshaped. `None` unless
    /// the matrix is a rectangle of scalars of shape `[1, n]` or `[n, 1]`.
    pub fn as_column(&self) -> (column: Option<RhaiMatrix>)
        ensures
            match column {
                Some(c) => as_column_of(self@) == Some(c@),
                None => as_column_of(self@) is None,
            },
    {
        let shape = matrix_size(&self.0);
        proof {
            assert(shape@.len() == claimed_shape(self@).len());
            lemma_regular_matrix(self@);
        }
        if shape.len() == 2 && has_regular_shape(&self.0) {
            assert(shape@[0] == as_nats(shape@)[0] && shape@[1] == as_nats(shape@)[1]);
            if shape[1] == 1 {
                Some(self.clone())
            } else if shape[0] == 1 {
                Some(RhaiMatrix::column_vector(flatten(&self.0)))
            } else {
                None
            }
        } else {
            None
        }
    }

    /// The nested array of floats that holds the cells of a dense matrix.
    pub fn from_dmatrix(mat: &DenseMatrix) -> (m: RhaiMatrix)
        ensures
            m@ == float_rows(mat@.rows),
    {
        let mut rows: Vec<Value> = Vec::new();
        assert(rows.deep_view() =~= Seq::<Node>::empty());
        push_dense_rows(mat, &mut rows);
        assert(rows.deep_view() =~= float_rows(mat@.rows));
        RhaiMatrix(rows)
    }

    /// The transpose, as floats: a matrix of shape `[r, c]` becomes one of
    /// shape `[c, r]`.
    pub fn transpose(&self) -> (result: Result<RhaiMatrix, ArithmeticError>)
        ensures
            match result {
                Ok(t) => {
                    &&& matrix_fault(self@) is None
                    &&& t@ == transpose_of(self@)
                    &&& width_of(self@) > 0 ==> claimed_shape(t@) == seq![
                        width_of(self@),
                        self@.len(),
                    ] && is_rectangular(t@)
                },
                Err(e) => matrix_fault(self@) == Some(e),
            },
    {
        let dense = match self.to_dmatrix() {
            Ok(dense) => dense,
            Err(e) => {
                return Err(e);
            },
        };
        let flipped = dense.flipped();
        proof {
            let want = dense@.transposed();
            assert forall|j: int| 0 <= j < want.rows.len() implies #[trigger] flipped@.rows[j]
                =~= want.rows[j] by {}
            assert(flipped@.rows =~= want.rows);
            if width_of(self@) > 0 {
                lemma_transpose_shape(self@);
            }
        }
        Ok(RhaiMatrix::from_dmatrix(&flipped))
    }

    /// Joins two matrices side by side, as floats. Both must be rectangular
    /// matrices of numbers with the same number of rows: shapes `[r, c1]` and
    /// `[r, c2]` give the shape `[r, c1 + c2]`.
    pub fn concat_h(&self, other: &RhaiMatrix) -> (result: Result<RhaiMatrix, ArithmeticError>)
        ensures
            match result {
                Ok(joined) => {
                    &&& horzcat_fault(self@, other@) is None
                    &&& joined@ == horzcat_of(self@, other@)
                    &&& self@.len() > 0 ==> claimed_shape(joined@) == seq![
                        self@.len(),
                        width_of(self@) + width_of(other@),
                    ] && is_rectangular(joined@)
                },
                Err(e) => horzcat_fault(self@, other@) == Some(e),
            },
    {
        let left = match self.to_dmatrix() {
            Ok(dense) => dense,
            Err(e) => {
                return Err(e);
            },
        };
        let right = match other.to_dmatrix() {
            Ok(dense) => dense,
            Err(e) => {
                return Err(e);
            },
        };
        let nrows = left.nrows();
        if nrows != right.nrows() {
            return Err(ArithmeticError::RowCountMismatch);
        }
        let mut rows: Vec<Value> = Vec::new();
        let mut i: usize = 0;
        while i < nrows
            invariant
                nrows == left@.rows.len(),
                nrows == right@.rows.len(),
                i <= nrows,
                rows.len() == i,
                forall|k: int|
                    0 <= k < i ==> (#[trigger] rows@[k]).deep_view() == Node::Array(
                        float_items(left@.rows[k] + right@.rows[k]),
                    ),
            decreases nrows - i,
        {
            let mut row: Vec<Value> = Vec::new();
            assert(row.deep_view() =~= Seq::<Node>::empty());
            push_dense_row(&left, i, &mut row);
            push_dense_row(&right, i, &mut row);
            proof {
                lemma_array_view(row);
                assert(row.deep_view() =~= float_items(
                    left@.rows[i as int] + right@.rows[i as int],
                ));
            }
            rows.push(Value::Array(row));
            i += 1;
        }
        proof {
            assert(rows.deep_view() =~= horzcat_of(self@, other@));
            if self@.len() > 0 {
                lemma_horzcat_shape(self@, other@);
            }
        }
        Ok(RhaiMatrix(rows))
    }

    /// Stacks two matrices, as floats. Both must be rectangular matrices of
    /// numbers with the same number of columns: shapes `[r1, c]` and `[r2, c]`
    /// give the shape `[r1 + r2, c]`.
    pub fn concat_v(&self, other: &RhaiMatrix) -> (result: Result<RhaiMatrix, ArithmeticError>)
        ensures
            match result {
                Ok(stacked) => {
                    &&& vertcat_fault(self@, other@) is None
                    &&& stacked@ == vertcat_of(self@, other@)
                    &&& self@.len() + other@.len() > 0 ==> claimed_shape(stacked@) == seq![
                        self@.len() + other@.len(),
                        width_of(self@),
                    ] && is_rectangular(stacked@)
                },
                Err(e) => vertcat_fault(self@, other@) == Some(e),
            },
    {
        let top = match self.to_dmatrix() {
            Ok(dense) => dense,
            Err(e) => {
                return Err(e);
            },
        };
        let bottom = match other.to_dmatrix() {
            Ok(dense) => dense,
            Err(e) => {
                return Err(e);
            },
        };
        if top.ncols() != bottom.ncols() {
            return Err(ArithmeticError::ColumnCountMismatch);
        }
        let mut rows: Vec<Value> = Vec::new();
        assert(rows.deep_view() =~= Seq::<Node>::empty());
        push_dense_rows(&top, &mut rows);
        push_dense_rows(&bottom, &mut rows);
        proof {
            assert(rows.deep_view() =~= vertcat_of(self@, other@));
            if self@.len() + other@.len() > 0 {
                lemma_vertcat_shape(self@, other@);
            }
        }
        Ok(RhaiMatrix(rows))
    }
}

/// Appends the rows of a dense matrix to `out`, each as an array of floats.
fn push_dense_rows(mat: &DenseMatrix, out: &mut Vec<Value>)
    ensures
        final(out).deep_view() == old(out).deep_view() + float_rows(mat@.rows),
{
    let nrows = mat.nrows();
    let mut i: usize = 0;
    assert(out.deep_view() =~= old(out).deep_view() + float_rows(mat@.rows).take(0));
    while i < nrows
        invariant
            nrows == mat@.rows.len(),
            i <= nrows,
            out.deep_view() == old(out).deep_view() + float_rows(mat@.rows).take(i as int),
        decreases nrows - i,
    {
        let ghost before = out.deep_view();
        let mut row: Vec<Value> = Vec::new();
        assert(row.deep_view() =~= Seq::<Node>::empty());
        push_dense_row(mat, i, &mut row);
        proof {
            lemma_array_view(row);
            assert(row.deep_view() =~= float_items(mat@.rows[i as int]));
        }
        out.push(Value::Array(row));
        assert(out.deep_view() =~= before + seq![Node::Array(float_items(mat@.rows[i as int]))]);
        assert(float_rows(mat@.rows).take(i + 1) =~= float_rows(mat@.rows).take(i as int)
            + seq![Node::Array(float_items(mat@.rows[i as int]))]);
        i += 1;
    }
    assert(float_rows(mat@.rows).take(nrows as int) =~= float_rows(mat@.rows));
}

/// Appends the cells of row `i` of a dense matrix to `out`, as floats.
fn push_dense_row(mat: &DenseMatrix, i: usize, out: &mut Vec<Value>)
    requires
        i < mat@.rows.len(),
    ensures
        final(out).deep_view() == old(out).deep_view() + float_items(mat@.rows[i as int]),
{
    let ncols = mat.ncols();
    let mut j: usize = 0;
    assert(out.deep_view() =~= old(out).deep_view() + float_items(mat@.rows[i as int]).take(0));
    while j < ncols
        invariant
            i < mat@.rows.len(),
            ncols == mat@.ncols,
            mat@.rows[i as int].len() == ncols,
            j <= ncols,
            out.deep_view() == old(out).deep_view() + float_items(mat@.rows[i as int]).take(
                j as int,
            ),
        decreases ncols - j,
    {
        let ghost before = out.deep_view();
        let bits = mat.cell(i, j);
        out.push(Value::Float(bits));
        assert(out.deep_view() =~= before + seq![Node::Float(bits)]);
        assert(float_items(mat@.rows[i as int]).take(j + 1) =~= float_items(
            mat@.rows[i as int],
        ).take(j as int) + seq![Node::Float(bits)]);
        j += 1;
    }
    assert(float_items(mat@.rows[i as int]).take(ncols as int) =~= float_items(
        mat@.rows[i as int],
    ));
}

/// An array that is to be treated as a flat list of numbers.
#[derive(Debug)]
pub struct RhaiVector(Vec<Value>);

impl View for RhaiVector {
    type V = Seq<Node>;

    closed spec fn view(&self) -> Seq<Node> {
        self.0.deep_view()
    }
}

impl Clone for RhaiVector {
    fn clone(&self) -> (copy: RhaiVector)
        ensures
            copy@ == self@,
    {
        let items = self.0.clone();
        assert(items.deep_view() =~= self.0.deep_view());
        RhaiVector(items)
    }
}

impl RhaiVector {
    /// Treats an array as a vector.
    pub fn from_array(arr: Vec<Value>) -> (v: RhaiVector)
        ensures
            v@ == arr.deep_view(),
    {
        RhaiVector(arr)
    }

    /// Hands the array back.
    pub fn to_array(self) -> (arr: Vec<Value>)
        ensures
            arr.deep_view() == self@,
    {
        self.0
    }

    /// Converts the vector into a dense vector of doubles, widening integers.
    /// Fails where an item is no number.
    pub fn to_dvector(&self) -> (result: Result<DenseVector, ArithmeticError>)
        ensures
            match result {
                Ok(dense) => all_numbers(self@) && dense@ == vector_bits(self@),
                Err(e) => e == ArithmeticError::VectorNonNumeric && !all_numbers(self@),
            },
    {
        let mut items: Vec<u64> = Vec::new();
        let mut i: usize = 0;
        while i < self.0.len()
            invariant
                i <= self.0.len(),
                items@.len() == i,
                forall|k: int| 0 <= k < i ==> is_number(#[trigger] self@[k]),
                forall|k: int| 0 <= k < i ==> #[trigger] items@[k] == number_bits(self@[k]),
            decreases self.0.len() - i,
        {
            let bits = match &self.0[i] {
                Value::Float(bits) => *bits,
                Value::Int(x) => float_bits_from_int(*x),
                _ => {
                    assert(!is_number(self@[i as int]));
                    return Err(ArithmeticError::VectorNonNumeric);
                },
            };
            items.push(bits);
            i += 1;
        }
        assert(items@ =~= vector_bits(self@));
        Ok(DenseVector::build(items))
    }

    /// The list of floats that holds the items of a dense vector.
    pub fn from_dvector(vec: &DenseVector) -> (v: RhaiVector)
        ensures
            v@ == float_items(vec@),
    {
        let len = vec.len();
        let mut items: Vec<Value> = Vec::new();
        let mut i: usize = 0;
        while i < len
            invariant
                len == vec@.len(),
                i <= len,
                items.len() == i,
                forall|k: int|
                    0 <= k < i ==> (#[trigger] items@[k]).deep_view() == Node::Float(vec@[k]),
            decreases len - i,
        {
            items.push(Value::Float(vec.item(i)));
            i += 1;
        }
        assert(items.deep_view() =~= float_items(vec@));
        RhaiVector(items)
    }
}

} // verus!
