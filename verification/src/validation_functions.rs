use crate::matrix::{all_numbers, is_number};
use crate::shape::{
    as_nats, claimed_shape, extent_product, flatten, flattened, has_regular_shape, is_flat,
    is_rectangular, leaf_count, lemma_flat_flattened, lemma_regular_count, lemma_regular_list,
    lemma_regular_matrix, matrix_size,
};
use crate::value::{Node, Value};
use vstd::prelude::*;

verus! {

/// How many of the items are integers.
pub open spec fn int_count(items: Seq<Node>) -> nat
    decreases items.len(),
{
    if items.len() == 0 {
        0
    } else {
        int_count(items.drop_last()) + if items.last() is Int {
            1nat
        } else {
            0nat
        }
    }
}

/// How many of the items are floats.
pub open spec fn float_count(items: Seq<Node>) -> nat
    decreases items.len(),
{
    if items.len() == 0 {
        0
    } else {
        float_count(items.drop_last()) + if items.last() is Float {
            1nat
        } else {
            0nat
        }
    }
}

/// Whether every item is an integer.
pub open spec fn all_ints(items: Seq<Node>) -> bool {
    forall|i: int| 0 <= i < items.len() ==> (#[trigger] items[i]) is Int
}

/// Whether every item is a float.
pub open spec fn all_floats(items: Seq<Node>) -> bool {
    forall|i: int| 0 <= i < items.len() ==> (#[trigger] items[i]) is Float
}

/// The counts of integers and of floats never exceed the number of items;
/// each reaches it exactly when every item is of that kind, and together
/// they reach it exactly when every item is a number.
pub proof fn lemma_counts(items: Seq<Node>)
    ensures
        int_count(items) + float_count(items) <= items.len(),
        int_count(items) == items.len() <==> all_ints(items),
        float_count(items) == items.len() <==> all_floats(items),
        int_count(items) + float_count(items) == items.len() <==> all_numbers(items),
    decreases items.len(),
{
    if items.len() > 0 {
        let front = items.drop_last();
        lemma_counts(front);
        assert forall|i: int| 0 <= i < front.len() implies front[i] == items[i] by {}
        if all_ints(front) && items.last() is Int {
            assert forall|i: int| 0 <= i < items.len() implies (#[trigger] items[i]) is Int by {
                if i < front.len() {
                    assert(front[i] is Int);
                }
            }
        }
        if all_ints(items) {
            assert forall|i: int| 0 <= i < front.len() implies (#[trigger] front[i]) is Int by {
                assert(items[i] is Int);
            }
            assert(items[items.len() - 1] is Int);
        }
        if all_floats(front) && items.last() is Float {
            assert forall|i: int| 0 <= i < items.len() implies (#[trigger] items[i]) is Float by {
                if i < front.len() {
                    assert(front[i] is Float);
                }
            }
        }
        if all_floats(items) {
            assert forall|i: int| 0 <= i < front.len() implies (#[trigger] front[i]) is Float by {
                assert(items[i] is Float);
            }
            assert(items[items.len() - 1] is Float);
        }
        if all_numbers(front) && is_number(items.last()) {
            assert forall|i: int| 0 <= i < items.len() implies is_number(#[trigger] items[i]) by {
                if i < front.len() {
                    assert(is_number(front[i]));
                }
            }
        }
        if all_numbers(items) {
            assert forall|i: int| 0 <= i < front.len() implies is_number(#[trigger] front[i]) by {
                assert(is_number(items[i]));
            }
            assert(is_number(items[items.len() - 1]));
        }
    }
}

/// The numbers of integers, of floats and of scalars in a nested array.
pub fn int_and_float_totals(arr: &Vec<Value>) -> (totals: (usize, usize, usize))
    ensures
        totals.0 == int_count(flattened(arr.deep_view())),
        totals.1 == float_count(flattened(arr.deep_view())),
        totals.2 == leaf_count(arr.deep_view()),
{
    let flat = flatten(arr);
    let mut ints: usize = 0;
    let mut floats: usize = 0;
    let mut k: usize = 0;
    let ghost leaves = flat.deep_view();
    while k < flat.len()
        invariant
            leaves == flat.deep_view(),
            k <= flat.len(),
            ints == int_count(leaves.take(k as int)),
            floats == float_count(leaves.take(k as int)),
            ints + floats <= k,
        decreases flat.len() - k,
    {
        proof {
            assert(leaves.take(k + 1).drop_last() =~= leaves.take(k as int));
            assert(leaves.take(k + 1).last() == flat@[k as int].deep_view());
        }
        match &flat[k] {
            Value::Int(_) => {
                ints += 1;
            },
            Value::Float(_) => {
                floats += 1;
            },
            _ => {},
        }
        k += 1;
    }
    assert(leaves.take(flat.len() as int) =~= leaves);
    (ints, floats, flat.len())
}

/// Whether the array is a simple list: none of its items is an array.
pub fn is_list(arr: &Vec<Value>) -> (answer: bool)
    ensures
        answer == is_flat(arr.deep_view()),
        answer ==> claimed_shape(arr.deep_view()) == seq![arr.deep_view().len()],
{
    let shape = matrix_size(arr);
    proof {
        assert(as_nats(shape@).len() == shape@.len());
        lemma_regular_list(arr.deep_view());
    }
    shape.len() == 1 && has_regular_shape(arr)
}

/// Whether every scalar of the array, however deeply nested, is a number.
pub fn is_numeric_array(arr: &Vec<Value>) -> (answer: bool)
    ensures
        answer == all_numbers(flattened(arr.deep_view())),
{
    let (ints, floats, total) = int_and_float_totals(arr);
    proof {
        lemma_counts(flattened(arr.deep_view()));
    }
    ints + floats == total
}

/// Whether the array is a simple list of floats only.
pub fn is_float_list(arr: &Vec<Value>) -> (answer: bool)
    ensures
        answer == (is_flat(arr.deep_view()) && all_floats(arr.deep_view())),
{
    let (_, floats, total) = int_and_float_totals(arr);
    proof {
        lemma_counts(flattened(arr.deep_view()));
        if is_flat(arr.deep_view()) {
            lemma_flat_flattened(arr.deep_view());
        }
    }
    floats == total && is_list(arr)
}

/// Whether the array is a simple list of integers only. Every item is
/// looked at.
pub fn is_int_list(arr: &Vec<Value>) -> (answer: bool)
    ensures
        answer == (is_flat(arr.deep_view()) && all_ints(arr.deep_view())),
{
    let (ints, _, total) = int_and_float_totals(arr);
    proof {
        lemma_counts(flattened(arr.deep_view()));
        if is_flat(arr.deep_view()) {
            lemma_flat_flattened(arr.deep_view());
        }
    }
    ints == total && is_list(arr)
}

/// Whether the array is a simple list of numbers, integers and floats alike.
pub fn is_numeric_list(arr: &Vec<Value>) -> (answer: bool)
    ensures
        answer == (is_flat(arr.deep_view()) && all_numbers(arr.deep_view())),
{
    let (ints, floats, total) = int_and_float_totals(arr);
    proof {
        lemma_counts(flattened(arr.deep_view()));
        if is_flat(arr.deep_view()) {
            lemma_flat_flattened(arr.deep_view());
        }
    }
    ints + floats == total && is_list(arr)
}

/// Whether the array is a row vector: a rectangle of scalars of shape
/// `[1, n]`.
pub fn is_row_vector(arr: &Vec<Value>) -> (answer: bool)
    ensures
        answer == (is_rectangular(arr.deep_view()) && claimed_shape(arr.deep_view())[0] == 1),
{
    let shape = matrix_size(arr);
    proof {
        assert(as_nats(shape@).len() == shape@.len());
        lemma_regular_matrix(arr.deep_view());
    }
    if shape.len() == 2 {
        assert(shape@[0] == as_nats(shape@)[0]);
        shape[0] == 1 && has_regular_shape(arr)
    } else {
        false
    }
}

/// Whether the array is a column vector: a rectangle of scalars of shape
/// `[n, 1]`.
pub fn is_column_vector(arr: &Vec<Value>) -> (answer: bool)
    ensures
        answer == (is_rectangular(arr.deep_view()) && claimed_shape(arr.deep_view())[1] == 1),
{
    let shape = matrix_size(arr);
    proof {
        assert(as_nats(shape@).len() == shape@.len());
        lemma_regular_matrix(arr.deep_view());
    }
    if shape.len() == 2 {
        assert(shape@[1] == as_nats(shape@)[1]);
        shape[1] == 1 && has_regular_shape(arr)
    } else {
        false
    }
}

/// Whether the array is a matrix: a rectangle of scalars, which claims two
/// extents and has every row as long as the second extent says. The product
/// of the two extents is then the number of scalars it holds.
pub fn is_matrix(arr: &Vec<Value>) -> (answer: bool)
    ensures
        answer == is_rectangular(arr.deep_view()),
        answer ==> extent_product(claimed_shape(arr.deep_view())) == leaf_count(arr.deep_view()),
{
    let shape = matrix_size(arr);
    proof {
        assert(as_nats(shape@).len() == shape@.len());
        lemma_regular_matrix(arr.deep_view());
    }
    if shape.len() != 2 {
        false
    } else {
        let answer = has_regular_shape(arr);
        proof {
            if answer {
                lemma_regular_count(arr.deep_view());
            }
        }
        answer
    }
}

} // verus!
