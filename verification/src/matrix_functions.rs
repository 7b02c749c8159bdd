use crate::dense::DenseMatrix;
use crate::error::ArithmeticError;
use crate::matrix::{
    all_numbers, column_of, dense_form, float_rows, horzcat_fault, horzcat_of, is_number,
    lemma_no_fault, matrix_fault, row_items, row_of, transpose_of, vertcat_fault, vertcat_of,
    width_of, RhaiMatrix,
};
use crate::matrix_lemmas::lemma_row_column_scalars;
use crate::shape::{
    as_nats, claimed_shape, flatten, flattened, has_regular_shape, is_flat, is_rectangular,
    lemma_claimed_shape_of_rows, lemma_flat_shape, lemma_regular_list, lemma_regular_matrix,
    matrix_size,
};
use crate::value::{lemma_array_view, Node, Value};
use vstd::arithmetic::div_mod::lemma_fundamental_div_mod_converse;
use vstd::prelude::*;

verus! {

/// A sequence repeated `times` times.
pub open spec fn tiled(items: Seq<Node>, times: nat) -> Seq<Node> {
    Seq::new(items.len() * times, |k: int| items[k % (items.len() as int)])
}

/// A matrix tiled `row_mult` times downwards and `col_mult` times to the
/// right: cell `(i, j)` is cell `(i mod r, j mod c)` of the `r` by `c` source.
pub open spec fn repmat_of(m: Seq<Node>, row_mult: nat, col_mult: nat) -> Seq<Node> {
    Seq::new(
        m.len() * row_mult,
        |i: int|
            Node::Array(
                Seq::new(
                    width_of(m) * col_mult,
                    |j: int| row_items(m[i % (m.len() as int)])[j % (width_of(m) as int)],
                ),
            ),
    )
}

/// The flat list that a list, a row vector or a column vector stands for: a
/// sequence without arrays in it as it is, a rectangle of scalars of shape
/// `[1, n]` or `[n, 1]` flattened; none for anything else.
pub open spec fn list_form(a: Seq<Node>) -> Option<Seq<Node>> {
    let shape = claimed_shape(a);
    if is_flat(a) {
        Some(a)
    } else if is_rectangular(a) && (shape[0] == 1 || shape[1] == 1) {
        Some(flattened(a))
    } else {
        None
    }
}

/// Why a nested array is no list of numbers, however oriented: it is not
/// list-like, else it holds a non-number.
pub open spec fn number_list_fault(a: Seq<Node>) -> Option<ArithmeticError> {
    match list_form(a) {
        None => Some(ArithmeticError::NotListLike),
        Some(items) => if all_numbers(items) {
            None
        } else {
            Some(ArithmeticError::VectorNonNumeric)
        },
    }
}

/// Why no grid can be made of two nested arrays: a fault of the first, else
/// a fault of the second.
pub open spec fn meshgrid_fault(x: Seq<Node>, y: Seq<Node>) -> Option<ArithmeticError> {
    if number_list_fault(x) is Some {
        number_list_fault(x)
    } else {
        number_list_fault(y)
    }
}

/// The grid of first coordinates: one row for each item of `ys`, each row
/// being `xs`.
pub open spec fn x_grid_of(xs: Seq<Node>, ys: Seq<Node>) -> Seq<Node> {
    Seq::new(ys.len(), |i: int| Node::Array(xs))
}

/// The grid of second coordinates: one row for each item of `ys`, row `i`
/// holding `ys[i]` once for each item of `xs`.
pub open spec fn y_grid_of(xs: Seq<Node>, ys: Seq<Node>) -> Seq<Node> {
    Seq::new(ys.len(), |i: int| Node::Array(Seq::new(xs.len(), |j: int| ys[i])))
}

/// Why a nested array cannot be inverted before the backend is asked: it is
/// no rectangular matrix of numbers, else it is not square.
pub open spec fn inv_fault(m: Seq<Node>) -> Option<ArithmeticError> {
    if matrix_fault(m) is Some {
        matrix_fault(m)
    } else if m.len() != width_of(m) {
        Some(ArithmeticError::NotSquare)
    } else {
        None
    }
}

/// One more repetition appends the sequence once more.
pub proof fn lemma_tiled_step(items: Seq<Node>, times: nat)
    ensures
        tiled(items, times + 1) == tiled(items, times) + items,
{
    let n = items.len() as int;
    assert(n * (times + 1) == n * times + n) by (nonlinear_arith);
    assert forall|k: int| 0 <= k < n * (times + 1) implies #[trigger] tiled(items, times + 1)[k]
        == (tiled(items, times) + items)[k] by {
        if k >= n * times {
            lemma_fundamental_div_mod_converse(k, n, times as int, k - n * times);
        }
    }
    assert(tiled(items, times + 1) =~= tiled(items, times) + items);
}

/// A rectangular matrix of numbers with `r` rows and `c` columns, tiled, has
/// `r * row_mult` rows of `c * col_mult` cells each, and its cell `(i, j)` is
/// cell `(i mod r, j mod c)` of the source. With at least one row it has the
/// shape `[r * row_mult, c * col_mult]`.
pub proof fn lemma_repmat_cells(m: Seq<Node>, row_mult: nat, col_mult: nat)
    requires
        matrix_fault(m) is None,
    ensures
        repmat_of(m, row_mult, col_mult).len() == m.len() * row_mult,
        forall|i: int|
            0 <= i < m.len() * row_mult ==> (#[trigger] repmat_of(m, row_mult, col_mult)[i])
                is Array && row_items(repmat_of(m, row_mult, col_mult)[i]).len() == width_of(m)
                * col_mult,
        forall|i: int, j: int|
            0 <= i < m.len() * row_mult && 0 <= j < width_of(m) * col_mult ==> #[trigger] row_items(
                repmat_of(m, row_mult, col_mult)[i],
            )[j] == row_items(m[i % (m.len() as int)])[j % (width_of(m) as int)],
        m.len() * row_mult > 0 ==> claimed_shape(repmat_of(m, row_mult, col_mult)) == seq![
            m.len() * row_mult,
            width_of(m) * col_mult,
        ],
        m.len() * row_mult > 0 ==> is_rectangular(repmat_of(m, row_mult, col_mult)),
{
    let t = repmat_of(m, row_mult, col_mult);
    if m.len() * row_mult > 0 {
        let r = m.len() as int;
        let c = width_of(m) as int;
        assert(r > 0) by (nonlinear_arith)
            requires
                r * row_mult > 0,
                r >= 0,
        ;
        lemma_no_fault(m);
        assert(t[0] is Array);
        assert forall|i: int| 0 <= i < t.len() implies is_flat((#[trigger] t[i])->Array_0) by {
            let row = t[i]->Array_0;
            assert forall|j: int| 0 <= j < row.len() implies !((#[trigger] row[j]) is Array) by {
                assert(c > 0) by (nonlinear_arith)
                    requires
                        0 <= j < c * col_mult,
                        c >= 0,
                ;
                let source = row_items(m[i % r]);
                assert(all_numbers(source));
                assert(is_number(source[j % c]));
            }
        }
        lemma_claimed_shape_of_rows(t);
    }
}

/// A flat sequence is the flat list that it stands for itself, and that its
/// row vector and its column vector stand for: what works on lists takes all
/// three alike.
pub proof fn lemma_list_form_orientations(v: Seq<Node>)
    requires
        is_flat(v),
    ensures
        list_form(v) == Some(v),
        list_form(row_of(v)) == Some(v),
        list_form(column_of(v)) == Some(v),
{
    lemma_flat_shape(v);
    lemma_row_column_scalars(v);
    let row = row_of(v);
    lemma_claimed_shape_of_rows(row);
    let column = column_of(v);
    if v.len() > 0 {
        assert(is_flat(column[0]->Array_0));
        lemma_claimed_shape_of_rows(column);
    } else {
        assert(column =~= v);
    }
}

/// Both grids of two coordinate vectors of numbers have the shape
/// `[len(y), len(x)]`, whichever of the two is longer, as long as `y` has an
/// item.
pub proof fn lemma_meshgrid_shape(xs: Seq<Node>, ys: Seq<Node>)
    requires
        all_numbers(xs),
        all_numbers(ys),
        ys.len() > 0,
    ensures
        claimed_shape(x_grid_of(xs, ys)) == seq![ys.len(), xs.len()],
        claimed_shape(y_grid_of(xs, ys)) == seq![ys.len(), xs.len()],
        is_rectangular(x_grid_of(xs, ys)),
        is_rectangular(y_grid_of(xs, ys)),
{
    let gx = x_grid_of(xs, ys);
    let gy = y_grid_of(xs, ys);
    assert forall|j: int| 0 <= j < xs.len() implies !((#[trigger] gx[0]->Array_0[j]) is Array) by {
        assert(is_number(xs[j]));
    }
    assert(is_number(ys[0]));
    lemma_claimed_shape_of_rows(gx);
    lemma_claimed_shape_of_rows(gy);
}

/// Appends `times` copies of the items of `source` to `out`.
fn push_tiled(source: &Vec<Value>, times: usize, out: &mut Vec<Value>)
    ensures
        final(out).deep_view() == old(out).deep_view() + tiled(source.deep_view(), times as nat),
{
    let len = source.len();
    let ghost items = source.deep_view();
    if len == 0 {
        assert(items.len() * times == 0) by (nonlinear_arith)
            requires
                items.len() == 0,
        ;
        assert(out.deep_view() =~= old(out).deep_view() + tiled(items, times as nat));
        return ;
    }
    let mut t: usize = 0;
    assert(items.len() * 0 == 0) by (nonlinear_arith);
    assert(out.deep_view() =~= old(out).deep_view() + tiled(items, 0));
    while t < times
        invariant
            items == source.deep_view(),
            len == source.len(),
            t <= times,
            out.deep_view() == old(out).deep_view() + tiled(items, t as nat),
        decreases times - t,
    {
        let ghost before = out.deep_view();
        let mut k: usize = 0;
        assert(out.deep_view() =~= before + items.take(0));
        while k < len
            invariant
                items == source.deep_view(),
                len == source.len(),
                k <= len,
                out.deep_view() == before + items.take(k as int),
            decreases len - k,
        {
            let ghost sofar = out.deep_view();
            out.push(source[k].clone());
            assert(out.deep_view() =~= sofar + seq![items[k as int]]);
            assert(items.take(k + 1) =~= items.take(k as int) + seq![items[k as int]]);
            k += 1;
        }
        proof {
            assert(items.take(len as int) =~= items);
            lemma_tiled_step(items, t as nat);
            assert(out.deep_view() =~= old(out).deep_view() + tiled(items, (t + 1) as nat));
        }
        t += 1;
    }
}

/// The transpose of a matrix, as floats: a matrix of shape `[r, c]` becomes
/// one of shape `[c, r]`.
pub fn transpose(matrix: RhaiMatrix) -> (result: Result<RhaiMatrix, ArithmeticError>)
    ensures
        match result {
            Ok(t) => {
                &&& matrix_fault(matrix@) is None
                &&& t@ == transpose_of(matrix@)
                &&& width_of(matrix@) > 0 ==> claimed_shape(t@) == seq![
                    width_of(matrix@),
                    matrix@.len(),
                ] && is_rectangular(t@)
            },
            Err(e) => matrix_fault(matrix@) == Some(e),
        },
{
    matrix.transpose()
}

/// Two matrices joined side by side, as floats: shapes `[r, c1]` and
/// `[r, c2]` give the shape `[r, c1 + c2]`.
pub fn horzcat(left: RhaiMatrix, right: RhaiMatrix) -> (result: Result<
    RhaiMatrix,
    ArithmeticError,
>)
    ensures
        match result {
            Ok(joined) => {
                &&& horzcat_fault(left@, right@) is None
                &&& joined@ == horzcat_of(left@, right@)
                &&& left@.len() > 0 ==> claimed_shape(joined@) == seq![
                    left@.len(),
                    width_of(left@) + width_of(right@),
                ] && is_rectangular(joined@)
            },
            Err(e) => horzcat_fault(left@, right@) == Some(e),
        },
{
    left.concat_h(&right)
}

/// Two matrices stacked, as floats: shapes `[r1, c]` and `[r2, c]` give the
/// shape `[r1 + r2, c]`.
pub fn vertcat(top: RhaiMatrix, bottom: RhaiMatrix) -> (result: Result<
    RhaiMatrix,
    ArithmeticError,
>)
    ensures
        match result {
            Ok(stacked) => {
                &&& vertcat_fault(top@, bottom@) is None
                &&& stacked@ == vertcat_of(top@, bottom@)
                &&& top@.len() + bottom@.len() > 0 ==> claimed_shape(stacked@) == seq![
                    top@.len() + bottom@.len(),
                    width_of(top@),
                ] && is_rectangular(stacked@)
            },
            Err(e) => vertcat_fault(top@, bottom@) == Some(e),
        },
{
    top.concat_v(&bottom)
}

/// Tiles a rectangular matrix of numbers `row_mult` times downwards and
/// `col_mult` times to the right. The cells are kept as they are: an integer
/// stays an integer.
pub fn repmat(matrix: RhaiMatrix, row_mult: usize, col_mult: usize) -> (result: Result<
    RhaiMatrix,
    ArithmeticError,
>)
    ensures
        match result {
            Ok(t) => {
                &&& matrix_fault(matrix@) is None
                &&& t@ == repmat_of(matrix@, row_mult as nat, col_mult as nat)
                &&& matrix@.len() * row_mult > 0 ==> claimed_shape(t@) == seq![
                    matrix@.len() * (row_mult as nat),
                    width_of(matrix@) * (col_mult as nat),
                ] && is_rectangular(t@)
            },
            Err(e) => matrix_fault(matrix@) == Some(e),
        },
{
    match matrix.to_dmatrix() {
        Ok(_) => {},
        Err(e) => {
            return Err(e);
        },
    }
    let ghost m = matrix@;
    let source = matrix.to_array();
    let rows = source.len();
    proof {
        lemma_no_fault(m);
    }
    let mut wide: Vec<Value> = Vec::new();
    let mut i: usize = 0;
    while i < rows
        invariant
            m == source.deep_view(),
            rows == source.len(),
            matrix_fault(m) is None,
            forall|k: int|
                0 <= k < m.len() ==> (#[trigger] m[k]) is Array && row_items(m[k]).len()
                    == width_of(m),
            i <= rows,
            wide.len() == i,
            forall|k: int|
                0 <= k < i ==> (#[trigger] wide@[k]).deep_view() == Node::Array(
                    tiled(row_items(m[k]), col_mult as nat),
                ),
        decreases rows - i,
    {
        let mut row: Vec<Value> = Vec::new();
        assert(row.deep_view() =~= Seq::<Node>::empty());
        match &source[i] {
            Value::Array(items) => {
                proof {
                    lemma_array_view(*items);
                }
                push_tiled(items, col_mult, &mut row);
                assert(row.deep_view() =~= tiled(row_items(m[i as int]), col_mult as nat));
            },
            _ => {
                assert(m[i as int] is Array);
            },
        }
        proof {
            lemma_array_view(row);
        }
        wide.push(Value::Array(row));
        i += 1;
    }
    let mut out: Vec<Value> = Vec::new();
    assert(out.deep_view() =~= Seq::<Node>::empty());
    push_tiled(&wide, row_mult, &mut out);
    proof {
        let want = repmat_of(m, row_mult as nat, col_mult as nat);
        let got = out.deep_view();
        assert(got =~= tiled(wide.deep_view(), row_mult as nat));
        assert(got.len() == want.len());
        assert forall|k: int| 0 <= k < want.len() implies #[trigger] got[k] == want[k] by {
            let r = m.len() as int;
            assert(r > 0) by (nonlinear_arith)
                requires
                    0 <= k < r * row_mult,
                    r >= 0,
            ;
            let s = k % r;
            assert(0 <= s < r);
            assert(got[k] == wide.deep_view()[s]);
            assert(wide.deep_view()[s] == wide@[s].deep_view());
            let items = row_items(m[s]);
            assert(items.len() == width_of(m));
            assert(tiled(items, col_mult as nat) =~= want[k]->Array_0);
        }
        assert(got =~= want);
        lemma_repmat_cells(m, row_mult as nat, col_mult as nat);
    }
    Ok(RhaiMatrix::from_array(out))
}

/// The flat list that a list, a row vector or a column vector stands for;
/// `None` for an array of any other shape.
pub fn list_like(arr: &Vec<Value>) -> (list: Option<Vec<Value>>)
    ensures
        match list {
            Some(items) => list_form(arr.deep_view()) == Some(items.deep_view()),
            None => list_form(arr.deep_view()) is None,
        },
{
    let shape = matrix_size(arr);
    proof {
        assert(as_nats(shape@).len() == shape@.len());
        lemma_regular_list(arr.deep_view());
        lemma_regular_matrix(arr.deep_view());
    }
    if !has_regular_shape(arr) {
        None
    } else if shape.len() == 1 {
        let items = arr.clone();
        assert(items.deep_view() =~= arr.deep_view());
        Some(items)
    } else if shape.len() == 2 {
        assert(shape@[0] == as_nats(shape@)[0] && shape@[1] == as_nats(shape@)[1]);
        if shape[0] == 1 || shape[1] == 1 {
            Some(flatten(arr))
        } else {
            None
        }
    } else {
        None
    }
}

/// Whether every item of a list is an integer or a float.
pub fn are_numbers(items: &Vec<Value>) -> (answer: bool)
    ensures
        answer == all_numbers(items.deep_view()),
{
    let mut k: usize = 0;
    while k < items.len()
        invariant
            k <= items.len(),
            forall|i: int| 0 <= i < k ==> is_number(#[trigger] items.deep_view()[i]),
        decreases items.len() - k,
    {
        match &items[k] {
            Value::Int(_) => {},
            Value::Float(_) => {},
            _ => {
                assert(!is_number(items.deep_view()[k as int]));
                return false;
            },
        }
        k += 1;
    }
    true
}

/// The two coordinate grids of [`meshgrid`].
#[derive(Debug)]
pub struct MeshGrid {
    /// The grid of first coordinates.
    pub x: RhaiMatrix,
    /// The grid of second coordinates.
    pub y: RhaiMatrix,
}

/// The flat list of numbers that a list, a row vector or a column vector of
/// numbers stands for. What is not list-like is refused first, then what
/// holds a non-number.
pub fn number_list(arr: &Vec<Value>) -> (result: Result<Vec<Value>, ArithmeticError>)
    ensures
        match result {
            Ok(items) => number_list_fault(arr.deep_view()) is None && list_form(arr.deep_view())
                == Some(items.deep_view()),
            Err(e) => number_list_fault(arr.deep_view()) == Some(e),
        },
{
    match list_like(arr) {
        None => Err(ArithmeticError::NotListLike),
        Some(items) => {
            if are_numbers(&items) {
                Ok(items)
            } else {
                Err(ArithmeticError::VectorNonNumeric)
            }
        },
    }
}

/// The coordinate grids of two coordinate vectors, each given as a list, a
/// row vector or a column vector of numbers. Both grids have one row for
/// each item of `y` and one column for each item of `x`; the numbers are kept
/// as they are.
pub fn meshgrid(x: Vec<Value>, y: Vec<Value>) -> (result: Result<MeshGrid, ArithmeticError>)
    ensures
        match result {
            Ok(grid) => {
                let xs = list_form(x.deep_view())->Some_0;
                let ys = list_form(y.deep_view())->Some_0;
                &&& meshgrid_fault(x.deep_view(), y.deep_view()) is None
                &&& grid.x@ == x_grid_of(xs, ys)
                &&& grid.y@ == y_grid_of(xs, ys)
                &&& ys.len() > 0 ==> {
                    &&& claimed_shape(grid.x@) == seq![ys.len(), xs.len()]
                    &&& claimed_shape(grid.y@) == seq![ys.len(), xs.len()]
                    &&& is_rectangular(grid.x@)
                    &&& is_rectangular(grid.y@)
                }
            },
            Err(e) => meshgrid_fault(x.deep_view(), y.deep_view()) == Some(e),
        },
{
    let xs = match number_list(&x) {
        Ok(items) => items,
        Err(e) => {
            return Err(e);
        },
    };
    let ys = match number_list(&y) {
        Ok(items) => items,
        Err(e) => {
            return Err(e);
        },
    };
    let nx = xs.len();
    let ny = ys.len();
    let mut x_rows: Vec<Value> = Vec::new();
    let mut y_rows: Vec<Value> = Vec::new();
    let mut i: usize = 0;
    while i < ny
        invariant
            nx == xs.len(),
            ny == ys.len(),
            i <= ny,
            x_rows.len() == i,
            y_rows.len() == i,
            forall|k: int|
                0 <= k < i ==> (#[trigger] x_rows@[k]).deep_view() == Node::Array(xs.deep_view()),
            forall|k: int|
                0 <= k < i ==> (#[trigger] y_rows@[k]).deep_view() == Node::Array(
                    Seq::new(nx as nat, |j: int| ys.deep_view()[k]),
                ),
        decreases ny - i,
    {
        let x_row = xs.clone();
        assert(x_row.deep_view() =~= xs.deep_view());
        let mut y_row: Vec<Value> = Vec::new();
        let mut j: usize = 0;
        while j < nx
            invariant
                i < ys.len(),
                j <= nx,
                y_row.len() == j,
                forall|k: int|
                    0 <= k < j ==> (#[trigger] y_row@[k]).deep_view() == ys.deep_view()[i as int],
            decreases nx - j,
        {
            y_row.push(ys[i].clone());
            j += 1;
        }
        proof {
            lemma_array_view(x_row);
            lemma_array_view(y_row);
            assert(y_row.deep_view() =~= Seq::new(nx as nat, |j: int| ys.deep_view()[i as int]));
        }
        x_rows.push(Value::Array(x_row));
        y_rows.push(Value::Array(y_row));
        i += 1;
    }
    proof {
        assert(x_rows.deep_view() =~= x_grid_of(xs.deep_view(), ys.deep_view()));
        assert(y_rows.deep_view() =~= y_grid_of(xs.deep_view(), ys.deep_view()));
        if ny > 0 {
            lemma_meshgrid_shape(xs.deep_view(), ys.deep_view());
        }
    }
    Ok(MeshGrid { x: RhaiMatrix::from_array(x_rows), y: RhaiMatrix::from_array(y_rows) })
}

/// The dense matrix to hand to the backend's inverse routine, which takes
/// square matrices only.
pub fn inv_operand(matrix: &RhaiMatrix) -> (result: Result<DenseMatrix, ArithmeticError>)
    ensures
        match result {
            Ok(dense) => inv_fault(matrix@) is None && dense@ == dense_form(matrix@),
            Err(e) => inv_fault(matrix@) == Some(e),
        },
{
    let dense = match matrix.to_dmatrix() {
        Ok(dense) => dense,
        Err(e) => {
            return Err(e);
        },
    };
    if dense.nrows() != dense.ncols() {
        return Err(ArithmeticError::NotSquare);
    }
    Ok(dense)
}

/// The outcome of an inversion: the inverse that the backend found, as
/// floats, or the report that the matrix is singular where it found none.
pub fn inv_result(inverse: Option<DenseMatrix>) -> (result: Result<RhaiMatrix, ArithmeticError>)
    ensures
        match inverse {
            Some(dense) => result matches Ok(m) && m@ == float_rows(dense@.rows),
            None => result matches Err(e) && e == ArithmeticError::Singular,
        },
{
    match inverse {
        Some(dense) => Ok(RhaiMatrix::from_dmatrix(&dense)),
        None => Err(ArithmeticError::Singular),
    }
}

} // verus!
