use rhai_sci::matrix::RhaiMatrix;
use rhai_sci::shape::{flatten, has_regular_shape, matrix_size, numel, regular_size};
use rhai_sci::validation_functions::{
    int_and_float_totals, is_column_vector, is_float_list, is_int_list, is_list, is_matrix,
    is_numeric_array, is_numeric_list, is_row_vector,
};
use rhai_sci::value::Value;

fn float(x: f64) -> Value {
    Value::Float(x.to_bits())
}

fn ints(values: &[i64]) -> Vec<Value> {
    values.iter().map(|value| Value::Int(*value)).collect()
}

fn int_rows(rows: &[&[i64]]) -> Vec<Value> {
    rows.iter().map(|row| Value::Array(ints(row))).collect()
}

#[test]
fn is_matrix_takes_a_rectangle_and_refuses_three_dimensions() {
    assert!(is_matrix(&int_rows(&[&[1, 2, 3], &[4, 5, 6]])));
    let cube = vec![
        Value::Array(int_rows(&[&[1, 2], &[3, 4]])),
        Value::Array(int_rows(&[&[5, 6], &[7, 8]])),
    ];
    assert!(!is_matrix(&cube));
}

#[test]
fn is_matrix_refuses_lists_and_ragged_rows() {
    assert!(!is_matrix(&ints(&[1, 2, 3])));
    assert!(!is_matrix(&Vec::new()));
    assert!(!is_matrix(&int_rows(&[&[1, 2], &[3]])));
    assert!(!is_matrix(&int_rows(&[&[1], &[2, 3]])));
    assert!(is_matrix(&int_rows(&[&[1]])));
    assert!(is_matrix(&vec![Value::Array(vec![]), Value::Array(vec![])]));
}

#[test]
fn is_list_looks_at_the_shape() {
    assert!(is_list(&ints(&[1, 2, 3, 4])));
    assert!(is_list(&Vec::new()));
    assert!(!is_list(&int_rows(&[&[1, 2], &[3, 4]])));
    assert!(!is_list(&vec![Value::Array(int_rows(&[&[1, 2], &[3, 4]]))]));
}

#[test]
fn is_numeric_array_looks_at_every_scalar() {
    assert!(is_numeric_array(&vec![Value::Int(1), Value::Int(2), float(3.0), float(5.0)]));
    assert!(!is_numeric_array(&vec![Value::Int(1), float(3.0), Value::Other(0)]));
    assert!(is_numeric_array(&int_rows(&[&[1, 2], &[3, 4]])));
    let deep = vec![Value::Array(vec![Value::Array(vec![Value::Other(4)])])];
    assert!(!is_numeric_array(&deep));
    assert!(is_numeric_array(&Vec::new()));
}

#[test]
fn is_float_list_needs_floats_only() {
    assert!(is_float_list(&vec![float(1.0), float(2.0), float(3.0)]));
    assert!(!is_float_list(&ints(&[1, 2, 3, 4])));
    assert!(!is_float_list(&vec![float(1.0), Value::Int(2)]));
    assert!(!is_float_list(&vec![Value::Array(vec![float(1.0)])]));
}

#[test]
fn is_int_list_needs_integers_only() {
    assert!(is_int_list(&ints(&[1, 2, 3, 4])));
    assert!(!is_int_list(&vec![float(1.0), float(2.0)]));
    // Every item is looked at, not the first one only.
    assert!(!is_int_list(&vec![Value::Int(1), float(2.0)]));
    assert!(!is_int_list(&int_rows(&[&[1, 2]])));
}

#[test]
fn is_numeric_list_takes_integers_and_floats_alike() {
    assert!(is_numeric_list(&vec![float(1.0), float(2.0)]));
    assert!(is_numeric_list(&ints(&[1, 2, 3, 4])));
    assert!(is_numeric_list(&vec![Value::Int(1), float(2.0)]));
    assert!(!is_numeric_list(&vec![Value::Other(0), Value::Other(1)]));
    assert!(!is_numeric_list(&int_rows(&[&[1, 2]])));
}

#[test]
fn row_and_column_vectors_are_told_apart() {
    let row = int_rows(&[&[1, 2, 3]]);
    let column = int_rows(&[&[1], &[2], &[3]]);
    assert!(is_row_vector(&row));
    assert!(!is_row_vector(&column));
    assert!(is_column_vector(&column));
    assert!(!is_column_vector(&row));
    assert!(!is_row_vector(&ints(&[1, 2, 3])));
    assert!(!is_column_vector(&ints(&[1, 2, 3])));
}

#[test]
fn one_by_one_is_a_row_and_a_column() {
    let one = int_rows(&[&[7]]);
    assert!(is_row_vector(&one));
    assert!(is_column_vector(&one));
    let m = RhaiMatrix::from_array(one.clone());
    assert_eq!(m.as_row().unwrap().to_array(), one);
    assert_eq!(m.as_column().unwrap().to_array(), one);
}

#[test]
fn as_row_and_as_column_refuse_other_shapes() {
    let square = RhaiMatrix::from_array(int_rows(&[&[1, 2], &[3, 4]]));
    assert!(square.as_row().is_none());
    assert!(square.as_column().is_none());
    let flat = RhaiMatrix::from_array(ints(&[1, 2]));
    assert!(flat.as_row().is_none());
    assert!(flat.as_column().is_none());
    let none = RhaiMatrix::from_array(Vec::new());
    assert!(none.as_row().is_none());
    assert!(none.as_column().is_none());
}

#[test]
fn orientation_round_trip_gives_the_row_back() {
    let v = vec![Value::Int(1), float(2.0), Value::Int(3)];
    let row = RhaiMatrix::row_vector(v.clone());
    let column = row.as_column().unwrap();
    assert_eq!(
        column.clone().to_array(),
        vec![
            Value::Array(vec![Value::Int(1)]),
            Value::Array(vec![float(2.0)]),
            Value::Array(vec![Value::Int(3)]),
        ]
    );
    let back = column.as_row().unwrap().to_array();
    assert_eq!(back, vec![Value::Array(v)]);
    assert_eq!(matrix_size(&back), vec![1, 3]);
    // A row vector without items does not come back.
    let hollow = RhaiMatrix::row_vector(Vec::new());
    assert!(hollow.as_column().unwrap().as_row().is_none());
}

#[test]
fn matrix_size_follows_the_first_items() {
    assert_eq!(matrix_size(&ints(&[1, 2, 3])), vec![3]);
    assert_eq!(matrix_size(&int_rows(&[&[1, 2, 3], &[4, 5, 6]])), vec![2, 3]);
    assert_eq!(matrix_size(&Vec::new()), vec![0]);
    assert_eq!(matrix_size(&vec![Value::Array(vec![])]), vec![1, 0]);
    let cube = vec![Value::Array(int_rows(&[&[1, 2], &[3, 4], &[5, 6]]))];
    assert_eq!(matrix_size(&cube), vec![1, 3, 2]);
}

#[test]
fn numel_counts_the_scalars() {
    assert_eq!(numel(&ints(&[1, 2, 3])), 3);
    assert_eq!(numel(&int_rows(&[&[1, 2, 3], &[4, 5, 6]])), 6);
    assert_eq!(numel(&int_rows(&[&[1, 2], &[3]])), 3);
    assert_eq!(numel(&Vec::new()), 0);
}

#[test]
fn flatten_walks_row_by_row() {
    assert_eq!(flatten(&int_rows(&[&[1, 2, 3], &[4, 5, 6]])), ints(&[1, 2, 3, 4, 5, 6]));
    let mixed = vec![
        Value::Int(1),
        Value::Array(vec![float(2.0), Value::Array(vec![Value::Other(5), Value::Int(3)])]),
        Value::Array(vec![]),
        Value::Int(4),
    ];
    assert_eq!(
        flatten(&mixed),
        vec![Value::Int(1), float(2.0), Value::Other(5), Value::Int(3), Value::Int(4)]
    );
}

#[test]
fn totals_count_integers_floats_and_scalars() {
    let mixed = vec![
        Value::Array(vec![Value::Int(1), float(2.0), Value::Other(0)]),
        Value::Array(vec![Value::Int(3), Value::Int(4), float(5.0)]),
    ];
    assert_eq!(int_and_float_totals(&mixed), (3, 2, 6));
    assert_eq!(int_and_float_totals(&Vec::new()), (0, 0, 0));
}

#[test]
fn ragged_rows_are_no_matrix_whatever_their_count() {
    // Three rows of lengths 2, 1 and 3 hold 3 * 2 scalars, yet are no rectangle.
    let ragged = int_rows(&[&[1, 2], &[3], &[4, 5, 6]]);
    assert_eq!(matrix_size(&ragged), vec![3, 2]);
    assert_eq!(numel(&ragged), 6);
    assert!(!is_matrix(&ragged));
    let scalar_row = vec![Value::Array(ints(&[1])), Value::Int(2)];
    assert!(!is_matrix(&scalar_row));
    let nested_cell = vec![Value::Array(vec![Value::Int(1), Value::Array(ints(&[2, 3]))])];
    assert!(!is_matrix(&nested_cell));
}

#[test]
fn ragged_rows_are_no_vector() {
    let ragged = int_rows(&[&[1], &[2, 3]]);
    assert!(!is_column_vector(&ragged));
    assert!(!is_row_vector(&ragged));
    let scalar_row = vec![Value::Array(ints(&[1])), Value::Int(2)];
    assert!(!is_column_vector(&scalar_row));
    let nested_cell = vec![Value::Array(vec![Value::Int(1), Value::Array(ints(&[2]))])];
    assert!(!is_row_vector(&nested_cell));
    let m = RhaiMatrix::from_array(int_rows(&[&[1], &[2, 3]]));
    assert!(m.as_row().is_none());
    assert!(m.as_column().is_none());
}

#[test]
fn list_with_an_array_in_it_is_no_list() {
    let mixed = vec![Value::Int(1), Value::Array(ints(&[2, 3]))];
    assert_eq!(matrix_size(&mixed), vec![2]);
    assert!(!is_list(&mixed));
    assert!(!is_int_list(&mixed));
    assert!(!is_float_list(&vec![float(1.0), Value::Array(vec![float(2.0)])]));
    assert!(!is_numeric_list(&mixed));
    // Every scalar of it is a number all the same.
    assert!(is_numeric_array(&mixed));
}

#[test]
fn regular_shapes_are_told_from_irregular_ones() {
    assert!(has_regular_shape(&Vec::new()));
    assert!(has_regular_shape(&ints(&[1, 2, 3])));
    assert!(has_regular_shape(&int_rows(&[&[1, 2], &[3, 4]])));
    assert!(has_regular_shape(&vec![Value::Array(vec![]), Value::Array(vec![])]));
    let cube = vec![
        Value::Array(int_rows(&[&[1, 2], &[3, 4]])),
        Value::Array(int_rows(&[&[5, 6], &[7, 8]])),
    ];
    assert!(has_regular_shape(&cube));
    let uneven_cube = vec![
        Value::Array(int_rows(&[&[1, 2], &[3, 4]])),
        Value::Array(int_rows(&[&[5, 6], &[7]])),
    ];
    assert!(!has_regular_shape(&uneven_cube));
    assert!(!has_regular_shape(&int_rows(&[&[1, 2], &[3]])));
    assert!(!has_regular_shape(&vec![Value::Int(1), Value::Array(vec![])]));
    assert!(!has_regular_shape(&vec![Value::Array(vec![]), Value::Int(1)]));
}

#[test]
fn regular_size_reports_irregular_arrays() {
    assert_eq!(regular_size(&int_rows(&[&[1, 2, 3], &[4, 5, 6]])), Some(vec![2, 3]));
    assert_eq!(regular_size(&ints(&[1, 2, 3])), Some(vec![3]));
    assert_eq!(regular_size(&Vec::new()), Some(vec![0]));
    assert_eq!(regular_size(&int_rows(&[&[1, 2], &[3], &[4, 5, 6]])), None);
    assert_eq!(regular_size(&vec![Value::Int(1), Value::Array(ints(&[2]))]), None);
}
