use rhai_sci::matrix::RhaiMatrix;
use rhai_sci::matrix_functions::{horzcat, transpose, vertcat};
use rhai_sci::shape::matrix_size;
use rhai_sci::validation_functions::{is_column_vector, is_row_vector};
use rhai_sci::value::Value;

#[test]
fn constructors_create_properly_oriented_vectors() {
    let row_data = vec![Value::Int(1), Value::Int(2), Value::Int(3)];
    let row = RhaiMatrix::row_vector(row_data).to_array();
    assert!(is_row_vector(&row));

    let column_data = vec![Value::Int(4), Value::Int(5), Value::Int(6)];
    let column = RhaiMatrix::column_vector(column_data).to_array();
    assert!(is_column_vector(&column));
}

#[test]
fn as_column_converts_row_to_column() {
    let data = vec![Value::Int(1), Value::Int(2)];
    let row = RhaiMatrix::row_vector(data);
    let column = row.as_column().unwrap().to_array();
    assert!(is_column_vector(&column));
}

#[test]
fn as_row_converts_column_to_row() {
    let data = vec![Value::Int(1), Value::Int(2)];
    let column = RhaiMatrix::column_vector(data);
    let row = column.as_row().unwrap().to_array();
    assert!(is_row_vector(&row));
}

#[test]
fn transpose_flips_vector_orientation() {
    let data = vec![Value::Int(1), Value::Int(2), Value::Int(3)];
    let row = RhaiMatrix::row_vector(data);
    let transposed = transpose(row).unwrap().to_array();
    assert!(is_column_vector(&transposed));
}

#[test]
fn horzcat_produces_row_vector() {
    let left = vec![Value::Int(1), Value::Int(2)];
    let right = vec![Value::Int(3), Value::Int(4)];
    let m1 = RhaiMatrix::row_vector(left);
    let m2 = RhaiMatrix::row_vector(right);
    let result = horzcat(m1, m2).unwrap().to_array();
    assert!(is_row_vector(&result));
    let dims = matrix_size(&result);
    assert_eq!(dims[0], 1);
    assert_eq!(dims[1], 4);
}

#[test]
fn vertcat_produces_column_vector() {
    let top = vec![Value::Int(1), Value::Int(2)];
    let bottom = vec![Value::Int(3), Value::Int(4)];
    let m1 = RhaiMatrix::column_vector(top);
    let m2 = RhaiMatrix::column_vector(bottom);
    let result = vertcat(m1, m2).unwrap().to_array();
    assert!(is_column_vector(&result));
    let dims = matrix_size(&result);
    assert_eq!(dims[0], 4);
    assert_eq!(dims[1], 1);
}
