use crate::value::{lemma_array_view, Node, Value};
use vstd::prelude::*;

verus! {

/// The extents that a nested array claims: its own length, then, as long as
/// the first item is itself an array, the extents that this item claims. Only
/// the first items are read: the claim holds of the whole array where the
/// array is regular.
pub open spec fn claimed_shape(items: Seq<Node>) -> Seq<nat>
    decreases items,
{
    if items.len() > 0 && items[0] is Array {
        seq![items.len()] + claimed_shape(items[0]->Array_0)
    } else {
        seq![items.len()]
    }
}

/// The scalars below one node, in row-major order.
pub open spec fn leaves(node: Node) -> Seq<Node>
    decreases node, 0nat,
{
    match node {
        Node::Array(items) => leaves_upto(items, items.len()),
        _ => seq![node],
    }
}

/// The scalars below the first `k` items of a nested array, in row-major order.
pub open spec fn leaves_upto(items: Seq<Node>, k: nat) -> Seq<Node>
    decreases items, k,
{
    if k == 0 || k > items.len() {
        Seq::empty()
    } else {
        leaves_upto(items, (k - 1) as nat) + leaves(items[k - 1])
    }
}

/// All scalars of a nested array as one flat sequence, in row-major order.
pub open spec fn flattened(items: Seq<Node>) -> Seq<Node> {
    leaves_upto(items, items.len())
}

/// The number of scalars in a nested array.
pub open spec fn leaf_count(items: Seq<Node>) -> nat {
    flattened(items).len()
}

/// The product of a sequence of extents.
pub open spec fn extent_product(shape: Seq<nat>) -> nat
    decreases shape.len(),
{
    if shape.len() == 0 {
        1
    } else {
        shape[0] * extent_product(shape.drop_first())
    }
}

/// A sequence of machine-sized extents as natural numbers.
pub open spec fn as_nats(dims: Seq<usize>) -> Seq<nat> {
    Seq::new(dims.len(), |k: int| dims[k] as nat)
}

/// Whether no item of a sequence is itself an array.
pub open spec fn is_flat(items: Seq<Node>) -> bool {
    forall|i: int| 0 <= i < items.len() ==> !((#[trigger] items[i]) is Array)
}

/// Whether a nested array is regular, so that the extents it claims hold of
/// all of it: either none of its items is an array, or every item is a
/// regular array that claims the extents of the first.
pub open spec fn is_regular(items: Seq<Node>) -> bool
    decreases items,
{
    if items.len() > 0 && items[0] is Array {
        forall|i: int|
            0 <= i < items.len() ==> (#[trigger] items[i]) is Array && claimed_shape(
                items[i]->Array_0,
            ) == claimed_shape(items[0]->Array_0) && is_regular(items[i]->Array_0)
    } else {
        is_flat(items)
    }
}

/// The scalars below the first `k` items of a flat sequence are those items.
pub proof fn lemma_flat_leaves_upto(items: Seq<Node>, k: nat)
    requires
        is_flat(items),
        k <= items.len(),
    ensures
        leaves_upto(items, k) == items.take(k as int),
    decreases k,
{
    if k > 0 {
        lemma_flat_leaves_upto(items, (k - 1) as nat);
        assert(!(items[k - 1] is Array));
        assert(leaves(items[k - 1]) == seq![items[k - 1]]);
        assert(leaves_upto(items, k) == leaves_upto(items, (k - 1) as nat) + leaves(items[k - 1]));
        assert(items.take(k as int) =~= items.take(k - 1) + seq![items[k - 1]]);
    } else {
        assert(items.take(0) =~= Seq::<Node>::empty());
    }
}

/// Flattening a flat sequence changes nothing.
pub proof fn lemma_flat_flattened(items: Seq<Node>)
    requires
        is_flat(items),
    ensures
        flattened(items) == items,
{
    lemma_flat_leaves_upto(items, items.len());
    assert(items.take(items.len() as int) =~= items);
}

/// A flat sequence has the shape `[n]`.
pub proof fn lemma_flat_shape(items: Seq<Node>)
    requires
        is_flat(items),
    ensures
        claimed_shape(items) == seq![items.len()],
{
    if items.len() > 0 {
        assert(!(items[0] is Array));
    }
}

/// A nested array whose first item is a flat array has the shape `[n, w]`,
/// `w` being the length of that item.
pub proof fn lemma_claimed_shape_of_rows(m: Seq<Node>)
    requires
        m.len() > 0,
        m[0] is Array,
        is_flat(m[0]->Array_0),
    ensures
        claimed_shape(m) == seq![m.len(), m[0]->Array_0.len()],
{
    lemma_flat_shape(m[0]->Array_0);
    assert(seq![m.len()] + seq![m[0]->Array_0.len()] =~= seq![m.len(), m[0]->Array_0.len()]);
}

/// The scalars below the first `k` rows of a nested array whose rows are flat
/// arrays of one length `w`: their number is `k * w`, and the scalar at place
/// `i * w + j` is item `j` of row `i`.
pub proof fn lemma_leaves_of_rows(m: Seq<Node>, w: nat, k: nat)
    requires
        k <= m.len(),
        forall|i: int|
            0 <= i < m.len() ==> (#[trigger] m[i]) is Array && m[i]->Array_0.len() == w && is_flat(
                m[i]->Array_0,
            ),
    ensures
        leaves_upto(m, k).len() == k * w,
        forall|i: int, j: int|
            0 <= i < k && 0 <= j < w ==> #[trigger] leaves_upto(m, k)[i * w + j] == m[i]->Array_0[j],
    decreases k,
{
    if k > 0 {
        lemma_leaves_of_rows(m, w, (k - 1) as nat);
        let last = m[k - 1];
        assert(last is Array);
        lemma_flat_flattened(last->Array_0);
        assert(leaves(last) == last->Array_0);
        assert((k - 1) * w + w == k * w) by (nonlinear_arith);
        assert forall|i: int, j: int| 0 <= i < k && 0 <= j < w implies #[trigger] leaves_upto(
            m,
            k,
        )[i * w + j] == m[i]->Array_0[j] by {
            if i < k - 1 {
                assert(i * w + j < (k - 1) * w) by (nonlinear_arith)
                    requires
                        0 <= i < k - 1,
                        0 <= j < w,
                ;
            } else {
                assert(i * w + j - (k - 1) * w == j) by (nonlinear_arith)
                    requires
                        i == k - 1,
                ;
            }
        }
    } else {
        assert(0 * w == 0) by (nonlinear_arith);
    }
}

/// Whether a nested array is a rectangle of scalars: it claims two extents,
/// and every item is an array without arrays in it that is as long as the
/// second extent says.
pub open spec fn is_rectangular(items: Seq<Node>) -> bool {
    claimed_shape(items).len() == 2 && forall|i: int|
        0 <= i < items.len() ==> (#[trigger] items[i]) is Array && items[i]->Array_0.len()
            == claimed_shape(items)[1] && is_flat(items[i]->Array_0)
}

/// A regular nested array claims one extent exactly when none of its items
/// is an array.
pub proof fn lemma_regular_list(items: Seq<Node>)
    ensures
        (claimed_shape(items).len() == 1 && is_regular(items)) <==> is_flat(items),
{
    if items.len() > 0 && items[0] is Array {
        assert(claimed_shape(items[0]->Array_0).len() >= 1);
    }
}

/// A regular nested array claims two extents exactly when it is a rectangle
/// of scalars.
pub proof fn lemma_regular_matrix(items: Seq<Node>)
    ensures
        (claimed_shape(items).len() == 2 && is_regular(items)) <==> is_rectangular(items),
{
    if items.len() > 0 && items[0] is Array {
        let first = items[0]->Array_0;
        assert(claimed_shape(items) == seq![items.len()] + claimed_shape(first));
        assert(claimed_shape(first).len() >= 1);
        if claimed_shape(items).len() == 2 && is_regular(items) {
            assert(claimed_shape(first).len() == 1);
            assert(claimed_shape(first) == seq![first.len()]);
            assert forall|i: int| 0 <= i < items.len() implies (#[trigger] items[i]) is Array
                && items[i]->Array_0.len() == claimed_shape(items)[1] && is_flat(items[i]->Array_0) by {
                let row = items[i]->Array_0;
                assert(claimed_shape(row) == claimed_shape(first));
                lemma_regular_list(row);
                assert(claimed_shape(row)[0] == row.len());
            }
        }
        if is_rectangular(items) {
            assert(is_flat(first));
            lemma_flat_shape(first);
            assert forall|i: int| 0 <= i < items.len() implies (#[trigger] items[i]) is Array
                && claimed_shape(items[i]->Array_0) == claimed_shape(first) && is_regular(
                items[i]->Array_0,
            ) by {
                let row = items[i]->Array_0;
                lemma_flat_shape(row);
                lemma_regular_list(row);
            }
        }
    } else {
        assert(claimed_shape(items).len() == 1);
    }
}

/// The product of extents with one more extent in front.
pub proof fn lemma_extent_product_push(first: nat, rest: Seq<nat>)
    ensures
        extent_product(seq![first] + rest) == first * extent_product(rest),
{
    assert((seq![first] + rest).drop_first() =~= rest);
}

/// The first `k` items of a regular nested array of arrays hold `k` times as
/// many scalars as the extents of the first item multiply to.
pub proof fn lemma_regular_count_upto(items: Seq<Node>, k: nat)
    requires
        is_regular(items),
        items.len() > 0,
        items[0] is Array,
        k <= items.len(),
    ensures
        leaves_upto(items, k).len() == k * extent_product(claimed_shape(items[0]->Array_0)),
    decreases items, k,
{
    let each = extent_product(claimed_shape(items[0]->Array_0));
    if k > 0 {
        lemma_regular_count_upto(items, (k - 1) as nat);
        let last = items[k - 1];
        assert(last is Array);
        lemma_regular_count(last->Array_0);
        assert(leaves(last) == flattened(last->Array_0));
        assert((k - 1) * each + each == k * each) by (nonlinear_arith);
    } else {
        assert(0 * each == 0) by (nonlinear_arith);
    }
}

/// A regular nested array holds as many scalars as its extents multiply to.
pub proof fn lemma_regular_count(items: Seq<Node>)
    requires
        is_regular(items),
    ensures
        extent_product(claimed_shape(items)) == leaf_count(items),
    decreases items, items.len() + 1,
{
    if items.len() > 0 && items[0] is Array {
        lemma_regular_count_upto(items, items.len());
        lemma_extent_product_push(items.len(), claimed_shape(items[0]->Array_0));
    } else {
        lemma_flat_flattened(items);
        lemma_extent_product_push(items.len(), Seq::<nat>::empty());
        assert(seq![items.len()] + Seq::<nat>::empty() =~= seq![items.len()]);
        assert(extent_product(Seq::<nat>::empty()) == 1);
        assert(items.len() * 1 == items.len()) by (nonlinear_arith);
    }
}

fn push_shape(arr: &Vec<Value>, dims: &mut Vec<usize>)
    ensures
        as_nats(final(dims)@) == as_nats(old(dims)@) + claimed_shape(arr.deep_view()),
    decreases arr,
{
    dims.push(arr.len());
    assert(as_nats(dims@) =~= as_nats(old(dims)@) + seq![arr.len() as nat]);
    if arr.len() > 0 {
        match &arr[0] {
            Value::Array(inner) => {
                proof {
                    lemma_array_view(*inner);
                }
                push_shape(inner, dims);
                assert(as_nats(dims@) =~= as_nats(old(dims)@) + (seq![arr.len() as nat] + claimed_shape(
                    inner.deep_view(),
                )));
            },
            _ => {},
        }
    }
}

/// The extents that a nested array claims, outermost first: its length,
/// then the extents that its first item claims. They hold of the whole array
/// where [`has_regular_shape`] says so.
pub fn matrix_size(arr: &Vec<Value>) -> (dims: Vec<usize>)
    ensures
        as_nats(dims@) == claimed_shape(arr.deep_view()),
{
    let mut dims: Vec<usize> = Vec::new();
    assert(as_nats(dims@) =~= Seq::<nat>::empty());
    push_shape(arr, &mut dims);
    assert(as_nats(dims@) =~= claimed_shape(arr.deep_view()));
    dims
}

fn flatten_into(arr: &Vec<Value>, out: &mut Vec<Value>)
    ensures
        final(out).deep_view() == old(out).deep_view() + flattened(arr.deep_view()),
    decreases arr,
{
    let mut k: usize = 0;
    assert(out.deep_view() =~= old(out).deep_view() + leaves_upto(arr.deep_view(), 0));
    while k < arr.len()
        invariant
            k <= arr.len(),
            out.deep_view() == old(out).deep_view() + leaves_upto(arr.deep_view(), k as nat),
        decreases arr.len() - k,
    {
        let ghost before = out.deep_view();
        match &arr[k] {
            Value::Array(inner) => {
                proof {
                    lemma_array_view(*inner);
                }
                flatten_into(inner, out);
            },
            other => {
                out.push(other.clone());
                assert(out.deep_view() =~= before + seq![other.deep_view()]);
            },
        }
        assert(out.deep_view() == before + leaves(arr.deep_view()[k as int]));
        assert(out.deep_view() =~= old(out).deep_view() + leaves_upto(
            arr.deep_view(),
            (k + 1) as nat,
        ));
        k += 1;
    }
}

/// Every scalar of a nested array in one flat list, in row-major order.
pub fn flatten(arr: &Vec<Value>) -> (flat: Vec<Value>)
    ensures
        flat.deep_view() == flattened(arr.deep_view()),
{
    let mut flat: Vec<Value> = Vec::new();
    assert(flat.deep_view() =~= Seq::<Node>::empty());
    flatten_into(arr, &mut flat);
    assert(flat.deep_view() =~= flattened(arr.deep_view()));
    flat
}

/// The number of scalars in a nested array.
pub fn numel(arr: &Vec<Value>) -> (count: usize)
    ensures
        count == leaf_count(arr.deep_view()),
{
    flatten(arr).len()
}

fn same_extents(a: &Vec<usize>, b: &Vec<usize>) -> (answer: bool)
    ensures
        answer == (as_nats(a@) == as_nats(b@)),
{
    if a.len() != b.len() {
        assert(as_nats(a@).len() != as_nats(b@).len());
        return false;
    }
    let mut k: usize = 0;
    while k < a.len()
        invariant
            a.len() == b.len(),
            k <= a.len(),
            forall|j: int| 0 <= j < k ==> a@[j] == b@[j],
        decreases a.len() - k,
    {
        if a[k] != b[k] {
            assert(as_nats(a@)[k as int] != as_nats(b@)[k as int]);
            return false;
        }
        k += 1;
    }
    assert(as_nats(a@) =~= as_nats(b@));
    true
}

/// Whether a nested array is regular: whether the extents that it claims
/// hold of all of it.
pub fn has_regular_shape(arr: &Vec<Value>) -> (answer: bool)
    ensures
        answer == is_regular(arr.deep_view()),
    decreases arr,
{
    let ghost items = arr.deep_view();
    if arr.len() == 0 {
        return true;
    }
    match &arr[0] {
        Value::Array(first) => {
            proof {
                lemma_array_view(*first);
            }
            let want = matrix_size(first);
            let mut k: usize = 0;
            while k < arr.len()
                invariant
                    items == arr.deep_view(),
                    arr.len() > 0,
                    items[0] == Node::Array(first.deep_view()),
                    as_nats(want@) == claimed_shape(first.deep_view()),
                    k <= arr.len(),
                    forall|i: int|
                        0 <= i < k ==> (#[trigger] items[i]) is Array && claimed_shape(
                            items[i]->Array_0,
                        ) == claimed_shape(items[0]->Array_0) && is_regular(items[i]->Array_0),
                decreases arr.len() - k,
            {
                match &arr[k] {
                    Value::Array(row) => {
                        proof {
                            lemma_array_view(*row);
                        }
                        let got = matrix_size(row);
                        if !same_extents(&got, &want) {
                            return false;
                        }
                        if !has_regular_shape(row) {
                            return false;
                        }
                    },
                    _ => {
                        assert(!(items[k as int] is Array));
                        return false;
                    },
                }
                k += 1;
            }
            true
        },
        _ => {
            let mut k: usize = 0;
            while k < arr.len()
                invariant
                    items == arr.deep_view(),
                    arr.len() > 0,
                    !(items[0] is Array),
                    k <= arr.len(),
                    forall|i: int| 0 <= i < k ==> !((#[trigger] items[i]) is Array),
                decreases arr.len() - k,
            {
                match &arr[k] {
                    Value::Array(inner) => {
                        proof {
                            lemma_array_view(*inner);
                        }
                        assert(items[k as int] is Array);
                        return false;
                    },
                    _ => {},
                }
                k += 1;
            }
            true
        },
    }
}

/// The shape of a nested array: its extents, outermost first, where it is
/// regular; `None` for an irregular array, such as rows of differing lengths
/// or scalars beside arrays.
pub fn regular_size(arr: &Vec<Value>) -> (dims: Option<Vec<usize>>)
    ensures
        match dims {
            Some(extents) => is_regular(arr.deep_view()) && as_nats(extents@) == claimed_shape(
                arr.deep_view(),
            ),
            None => !is_regular(arr.deep_view()),
        },
{
    if has_regular_shape(arr) {
        Some(matrix_size(arr))
    } else {
        None
    }
}

} // verus!
