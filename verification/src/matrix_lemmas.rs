use crate::error::{has_part, ArithmeticError};
use crate::matrix::{
    all_numbers, as_column_of, as_row_of, column_of, dense_form, float_rows, horzcat_fault,
    horzcat_of, lemma_no_fault, matrix_fault, number_bits, row_items, row_of, transpose_of,
    vertcat_fault, vertcat_of, width_of,
};
use crate::shape::{
    claimed_shape, extent_product, flattened, is_flat, is_rectangular, leaf_count, leaves,
    leaves_upto, lemma_claimed_shape_of_rows, lemma_flat_flattened, lemma_leaves_of_rows,
};
use crate::value::Node;
use vstd::prelude::*;

verus! {

/// A flat sequence of at least one item, made a row vector, turned into a
/// column vector and back into a row vector, is the row vector it was; so
/// the shape it claims is the same.
pub proof fn lemma_orientation_round_trip(v: Seq<Node>)
    requires
        is_flat(v),
        v.len() > 0,
    ensures
        as_column_of(row_of(v)) is Some,
        as_row_of(as_column_of(row_of(v))->Some_0) == Some(row_of(v)),
        claimed_shape(as_row_of(as_column_of(row_of(v))->Some_0)->Some_0) == claimed_shape(row_of(v)),
{
    let row = row_of(v);
    lemma_claimed_shape_of_rows(row);
    assert(claimed_shape(row) == seq![1nat, v.len()]);
    lemma_row_column_scalars(v);
    if v.len() == 1 {
        assert(as_column_of(row) == Some(row));
    } else {
        let column = column_of(v);
        assert(as_column_of(row) == Some(column));
        assert(is_flat(column[0]->Array_0));
        lemma_claimed_shape_of_rows(column);
        assert(claimed_shape(column) == seq![v.len(), 1nat]);
    }
}

/// A row vector and a column vector made of a flat sequence hold its items
/// as their scalars, in order.
pub proof fn lemma_row_column_scalars(v: Seq<Node>)
    requires
        is_flat(v),
    ensures
        flattened(row_of(v)) == v,
        flattened(column_of(v)) == v,
{
    lemma_flat_flattened(v);
    let row = row_of(v);
    assert(leaves(row[0]) == flattened(v));
    assert(leaves_upto(row, 0) =~= Seq::<Node>::empty());
    assert(leaves_upto(row, 1) == leaves_upto(row, 0) + leaves(row[0]));
    assert(flattened(row) =~= v);
    let column = column_of(v);
    assert forall|i: int| 0 <= i < column.len() implies (#[trigger] column[i]) is Array
        && column[i]->Array_0.len() == 1 && is_flat(column[i]->Array_0) by {}
    lemma_leaves_of_rows(column, 1, column.len());
    assert forall|i: int| 0 <= i < v.len() implies flattened(column)[i] == v[i] by {
        assert(flattened(column)[i * 1 + 0] == column[i]->Array_0[0]);
    }
    assert(flattened(column) =~= v);
}

/// A rectangular matrix of numbers without columns would lose its rows on the
/// way; any other, transposed twice, is itself with each integer widened to
/// the nearest double. A matrix of floats comes back unchanged.
pub proof fn lemma_transpose_twice(m: Seq<Node>)
    requires
        matrix_fault(m) is None,
        m.len() == 0 || width_of(m) > 0,
    ensures
        matrix_fault(transpose_of(m)) is None,
        transpose_of(transpose_of(m)) == float_rows(dense_form(m).rows),
        (forall|i: int, j: int|
            0 <= i < m.len() && 0 <= j < width_of(m) ==> (#[trigger] row_items(m[i])[j]) is Float)
            ==> transpose_of(transpose_of(m)) == m,
{
    let d = dense_form(m);
    let t = transpose_of(m);
    lemma_no_fault(m);
    assert forall|i: int| 0 <= i < t.len() implies (#[trigger] t[i]) is Array && row_items(
        t[i],
    ).len() == width_of(t) && all_numbers(row_items(t[i])) by {}
    lemma_no_fault(t);
    let dt = dense_form(t);
    assert(dt.ncols == d.transposed().ncols);
    assert forall|i: int| 0 <= i < dt.rows.len() implies #[trigger] dt.rows[i] =~= d.transposed().rows[i] by {}
    assert(dt.rows =~= d.transposed().rows);
    let back = dt.transposed();
    assert forall|i: int| 0 <= i < back.rows.len() implies #[trigger] back.rows[i] =~= d.rows[i] by {}
    assert(back.rows =~= d.rows);
    if forall|i: int, j: int|
        0 <= i < m.len() && 0 <= j < width_of(m) ==> (#[trigger] row_items(m[i])[j]) is Float {
        let f = float_rows(d.rows);
        assert forall|i: int| 0 <= i < m.len() implies #[trigger] f[i] == m[i] by {
            assert(m[i] is Array);
            assert forall|j: int| 0 <= j < width_of(m) implies f[i]->Array_0[j] == row_items(
                m[i],
            )[j] by {
                assert(row_items(m[i])[j] is Float);
            }
            assert(f[i]->Array_0 =~= row_items(m[i]));
        }
        assert(f =~= m);
    }
}

/// Two rectangular matrices of numbers with `r > 0` rows each, joined side by
/// side, give a matrix of shape `[r, c1 + c2]`.
pub proof fn lemma_horzcat_shape(a: Seq<Node>, b: Seq<Node>)
    requires
        horzcat_fault(a, b) is None,
        a.len() > 0,
    ensures
        claimed_shape(horzcat_of(a, b)) == seq![a.len(), width_of(a) + width_of(b)],
        is_rectangular(horzcat_of(a, b)),
{
    let joined = horzcat_of(a, b);
    assert(joined[0] is Array);
    lemma_claimed_shape_of_rows(joined);
}

/// Two rectangular matrices of numbers whose row counts differ are never
/// joined side by side: the error says that the numbers of rows must be the
/// same.
pub proof fn lemma_horzcat_row_mismatch(a: Seq<Node>, b: Seq<Node>)
    requires
        matrix_fault(a) is None,
        matrix_fault(b) is None,
        a.len() != b.len(),
    ensures
        horzcat_fault(a, b) == Some(ArithmeticError::RowCountMismatch),
        has_part(ArithmeticError::RowCountMismatch.message_text(), "same number of rows"@),
{
    reveal_strlit("Matrices must have the same number of rows");
    reveal_strlit("same number of rows");
    let text = "Matrices must have the same number of rows"@;
    let part = "same number of rows"@;
    let k = 23int;
    assert(text.subrange(k, k + part.len()) =~= part);
}

/// Two rectangular matrices of numbers with `c` columns each and `r1 + r2 > 0`
/// rows together, stacked, give a matrix of shape `[r1 + r2, c]`.
pub proof fn lemma_vertcat_shape(a: Seq<Node>, b: Seq<Node>)
    requires
        vertcat_fault(a, b) is None,
        a.len() + b.len() > 0,
    ensures
        claimed_shape(vertcat_of(a, b)) == seq![a.len() + b.len(), width_of(a)],
        is_rectangular(vertcat_of(a, b)),
{
    let stacked = vertcat_of(a, b);
    assert(stacked[0] is Array);
    lemma_claimed_shape_of_rows(stacked);
}

/// The transpose of a rectangular matrix of numbers with `r` rows and `c > 0`
/// columns has the shape `[c, r]`.
pub proof fn lemma_transpose_shape(m: Seq<Node>)
    requires
        matrix_fault(m) is None,
        width_of(m) > 0,
    ensures
        claimed_shape(transpose_of(m)) == seq![width_of(m), m.len()],
        is_rectangular(transpose_of(m)),
{
    let t = transpose_of(m);
    assert(t[0] is Array);
    lemma_claimed_shape_of_rows(t);
}

/// Two rectangular matrices of numbers whose column counts differ are never
/// stacked: the error says that the numbers of columns must be the same.
pub proof fn lemma_vertcat_column_mismatch(a: Seq<Node>, b: Seq<Node>)
    requires
        matrix_fault(a) is None,
        matrix_fault(b) is None,
        width_of(a) != width_of(b),
    ensures
        vertcat_fault(a, b) == Some(ArithmeticError::ColumnCountMismatch),
        has_part(ArithmeticError::ColumnCountMismatch.message_text(), "same number of columns"@),
{
    reveal_strlit("Matrices must have the same number of columns");
    reveal_strlit("same number of columns");
    let text = "Matrices must have the same number of columns"@;
    let part = "same number of columns"@;
    let k = 23int;
    assert(text.subrange(k, k + part.len()) =~= part);
}

/// A rectangular matrix of numbers with at least one row has the shape
/// `[rows, columns]`, and holds as many scalars as the product of the two.
pub proof fn lemma_rectangular_shape(m: Seq<Node>)
    requires
        matrix_fault(m) is None,
        m.len() > 0,
    ensures
        claimed_shape(m) == seq![m.len(), width_of(m)],
        is_rectangular(m),
        extent_product(claimed_shape(m)) == leaf_count(m),
        leaf_count(m) == m.len() * width_of(m),
{
    lemma_no_fault(m);
    assert(m[0] is Array);
    lemma_claimed_shape_of_rows(m);
    assert forall|i: int| 0 <= i < m.len() implies (#[trigger] m[i]) is Array && m[i]->Array_0.len()
        == width_of(m) && is_flat(m[i]->Array_0) by {
        assert(row_items(m[i]) == m[i]->Array_0);
    }
    lemma_leaves_of_rows(m, width_of(m), m.len());
    let shape = claimed_shape(m);
    assert(shape.drop_first().drop_first() =~= Seq::<nat>::empty());
    assert(extent_product(shape.drop_first().drop_first()) == 1);
    assert(shape.drop_first()[0] == shape[1]);
    assert(extent_product(shape.drop_first()) == shape[1] * 1);
    assert(shape[1] * 1 == shape[1]) by (nonlinear_arith);
}

/// A row vector made of a flat sequence of `n` items has the shape `[1, n]`;
/// a column vector made of at least one item has the shape `[n, 1]`.
pub proof fn lemma_vector_shapes(v: Seq<Node>)
    requires
        is_flat(v),
    ensures
        claimed_shape(row_of(v)) == seq![1nat, v.len()],
        v.len() > 0 ==> claimed_shape(column_of(v)) == seq![v.len(), 1nat],
        is_rectangular(row_of(v)),
        v.len() > 0 ==> is_rectangular(column_of(v)),
{
    lemma_claimed_shape_of_rows(row_of(v));
    if v.len() > 0 {
        let column = column_of(v);
        assert(is_flat(column[0]->Array_0));
        lemma_claimed_shape_of_rows(column);
    }
}

/// A matrix of one row and one column is a row vector and a column vector as
/// it stands.
pub proof fn lemma_one_by_one(m: Seq<Node>)
    requires
        is_rectangular(m),
        claimed_shape(m) == seq![1nat, 1nat],
    ensures
        as_row_of(m) == Some(m),
        as_column_of(m) == Some(m),
{
}

/// A nested array whose first item holds an array in its first place claims
/// three extents or more, so it is neither a list nor a rectangle of scalars.
pub proof fn lemma_three_dimensional(m: Seq<Node>)
    requires
        m.len() > 0,
        m[0] is Array,
        m[0]->Array_0.len() > 0,
        m[0]->Array_0[0] is Array,
    ensures
        claimed_shape(m).len() >= 3,
        !is_rectangular(m),
        !is_flat(m),
{
    let plane = m[0]->Array_0;
    let line = plane[0]->Array_0;
    assert(claimed_shape(line).len() >= 1);
    assert(claimed_shape(plane) == seq![plane.len()] + claimed_shape(line));
    assert(claimed_shape(m) == seq![m.len()] + claimed_shape(plane));
}

/// The scalars of a rectangular matrix of numbers come row by row: with `c`
/// columns, the scalar at place `i * c + j` is the cell in row `i` and
/// column `j`.
pub proof fn lemma_row_major(m: Seq<Node>)
    requires
        matrix_fault(m) is None,
    ensures
        flattened(m).len() == m.len() * width_of(m),
        forall|i: int, j: int|
            0 <= i < m.len() && 0 <= j < width_of(m) ==> #[trigger] flattened(m)[i * width_of(m)
                + j] == row_items(m[i])[j],
{
    lemma_no_fault(m);
    assert forall|i: int| 0 <= i < m.len() implies (#[trigger] m[i]) is Array && m[i]->Array_0.len()
        == width_of(m) && is_flat(m[i]->Array_0) by {
        assert(row_items(m[i]) == m[i]->Array_0);
    }
    lemma_leaves_of_rows(m, width_of(m), m.len());
    assert forall|i: int, j: int| 0 <= i < m.len() && 0 <= j < width_of(m) implies #[trigger] flattened(
        m,
    )[i * width_of(m) + j] == row_items(m[i])[j] by {
        assert(leaves_upto(m, m.len())[i * width_of(m) + j] == m[i]->Array_0[j]);
    }
}

/// The transpose of a rectangular matrix of numbers with `r` rows and `c`
/// columns has `c` rows of `r` floats each, and its cell `(j, i)` is the
/// double that stands for cell `(i, j)` of the matrix.
pub proof fn lemma_transpose_cells(m: Seq<Node>)
    requires
        matrix_fault(m) is None,
    ensures
        transpose_of(m).len() == width_of(m),
        forall|j: int|
            0 <= j < width_of(m) ==> (#[trigger] transpose_of(m)[j]) is Array && row_items(
                transpose_of(m)[j],
            ).len() == m.len(),
        forall|i: int, j: int|
            0 <= i < m.len() && 0 <= j < width_of(m) ==> #[trigger] row_items(transpose_of(m)[j])[i]
                == Node::Float(number_bits(row_items(m[i])[j])),
{
}

} // verus!
