use nalgebra::DMatrix;
use rhai_sci::dense::DenseMatrix;
use rhai_sci::error::ArithmeticError;
use rhai_sci::matrix::RhaiMatrix;
use rhai_sci::matrix_functions::{inv_operand, inv_result};
use rhai_sci::value::Value;

fn int_matrix(rows: &[&[i64]]) -> RhaiMatrix {
    RhaiMatrix::from_array(
        rows.iter()
            .map(|row| Value::Array(row.iter().map(|cell| Value::Int(*cell)).collect()))
            .collect(),
    )
}

// Inverts through the backend, as the scripting glue does.
fn inv(matrix: &RhaiMatrix) -> Result<Vec<Vec<f64>>, ArithmeticError> {
    let operand = inv_operand(matrix)?;
    let n = operand.nrows();
    let dense = DMatrix::from_fn(n, n, |i, j| f64::from_bits(operand.get(i, j).unwrap()));
    let inverse = dense.try_inverse().map(|found| {
        let mut cells = Vec::with_capacity(n * n);
        for i in 0..n {
            for j in 0..n {
                cells.push(found[(i, j)].to_bits());
            }
        }
        DenseMatrix::from_cells(n, n, &cells).unwrap()
    });
    let result = inv_result(inverse)?.to_array();
    Ok(result
        .iter()
        .map(|row| match row {
            Value::Array(cells) => cells
                .iter()
                .map(|cell| match cell {
                    Value::Float(bits) => f64::from_bits(*bits),
                    other => panic!("not a float: {:?}", other),
                })
                .collect(),
            other => panic!("not a row: {:?}", other),
        })
        .collect())
}

#[test]
fn matrix_inverse_example_produces_expected_result() {
    let result = inv(&int_matrix(&[&[1, 2], &[3, 4]])).unwrap();

    let r0 = &result[0];
    let r1 = &result[1];

    assert!((r0[0] + 2.0).abs() < f64::EPSILON);
    assert!((r0[1] - 1.0).abs() < f64::EPSILON);
    assert!((r1[0] - 1.5).abs() < f64::EPSILON);
    assert!((r1[1] + 0.5).abs() < f64::EPSILON);
}

#[test]
fn singular_matrix_is_reported() {
    let err = inv(&int_matrix(&[&[1, 2], &[2, 4]])).unwrap_err();
    assert_eq!(err, ArithmeticError::Singular);
}

#[test]
fn matrix_that_is_not_square_is_refused_before_the_backend() {
    let err = inv(&int_matrix(&[&[1, 2, 3], &[4, 5, 6]])).unwrap_err();
    assert_eq!(err, ArithmeticError::NotSquare);
    assert_eq!(err.message(), "Unable to invert a non-square matrix");
}

#[test]
fn non_numeric_cell_is_refused_before_the_backend() {
    let matrix = RhaiMatrix::from_array(vec![
        Value::Array(vec![Value::Int(1), Value::Other(0)]),
        Value::Array(vec![Value::Int(3), Value::Int(4)]),
    ]);
    let err = inv(&matrix).unwrap_err();
    assert_eq!(err, ArithmeticError::NonNumeric);
    assert_eq!(err.message(), "Matrix elements must be INT or FLOAT");
}

#[test]
fn empty_matrix_is_its_own_inverse() {
    let result = inv(&RhaiMatrix::from_array(Vec::new())).unwrap();
    assert!(result.is_empty());
}

#[test]
fn inv_result_reports_singular_for_no_inverse() {
    assert_eq!(inv_result(None).unwrap_err(), ArithmeticError::Singular);
}
