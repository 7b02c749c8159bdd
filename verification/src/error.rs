use vstd::prelude::*;

verus! {

/// Why a shape or arithmetic operation on a nested array was refused.
#[derive(Clone, Copy, Debug, PartialEq, Eq, Structural)]
pub enum ArithmeticError {
    /// A row of a matrix is not itself an array.
    RowsNotArrays,
    /// A row of a matrix is not as long as the first row.
    RaggedRows,
    /// A cell of a matrix is neither an integer nor a float.
    NonNumeric,
    /// An item of a vector is neither an integer nor a float.
    VectorNonNumeric,
    /// Two matrices to be joined side by side differ in their number of rows.
    RowCountMismatch,
    /// Two matrices to be stacked differ in their number of columns.
    ColumnCountMismatch,
    /// The input is neither a list, a row vector nor a column vector.
    NotListLike,
    /// A list that must hold an item holds none.
    EmptyList,
    /// A count, such as a multiplier or a window size, is negative or beyond
    /// what the machine can count.
    InvalidCount,
    /// A moving window is to hold no item at all.
    EmptyWindow,
    /// A matrix to be inverted is not square.
    NotSquare,
    /// A matrix to be inverted has no inverse.
    Singular,
}

/// Whether `part` occurs in `text` as a run of consecutive characters.
pub open spec fn has_part(text: Seq<char>, part: Seq<char>) -> bool {
    exists|k: int|
        0 <= k && k + part.len() <= text.len() && #[trigger] text.subrange(k, k + part.len())
            == part
}

impl ArithmeticError {
    /// The text of [`ArithmeticError::message`].
    pub open spec fn message_text(self) -> Seq<char> {
        match self {
            ArithmeticError::RowsNotArrays => "Matrix must contain row arrays"@,
            ArithmeticError::RaggedRows => "Matrix rows must have equal length"@,
            ArithmeticError::NonNumeric => "Matrix elements must be INT or FLOAT"@,
            ArithmeticError::VectorNonNumeric => "Vector elements must be INT or FLOAT"@,
            ArithmeticError::RowCountMismatch => "Matrices must have the same number of rows"@,
            ArithmeticError::ColumnCountMismatch => "Matrices must have the same number of columns"@,
            ArithmeticError::NotListLike => "Input must be a list, a row vector or a column vector"@,
            ArithmeticError::EmptyList => "List must hold at least one item"@,
            ArithmeticError::InvalidCount => "Count must be a non-negative integer"@,
            ArithmeticError::EmptyWindow => "Window must hold at least one item"@,
            ArithmeticError::NotSquare => "Unable to invert a non-square matrix"@,
            ArithmeticError::Singular => "Matrix is singular and cannot be inverted"@,
        }
    }

    /// The human-readable description carried by the error.
    pub fn message(&self) -> (text: String)
        ensures
            text@ == self.message_text(),
    {
        match self {
            ArithmeticError::RowsNotArrays => "Matrix must contain row arrays".to_owned(),
            ArithmeticError::RaggedRows => "Matrix rows must have equal length".to_owned(),
            ArithmeticError::NonNumeric => "Matrix elements must be INT or FLOAT".to_owned(),
            ArithmeticError::VectorNonNumeric => "Vector elements must be INT or FLOAT".to_owned(),
            ArithmeticError::RowCountMismatch => "Matrices must have the same number of rows".to_owned(),
            ArithmeticError::ColumnCountMismatch => "Matrices must have the same number of columns".to_owned(),
            ArithmeticError::NotListLike => "Input must be a list, a row vector or a column vector".to_owned(),
            ArithmeticError::EmptyList => "List must hold at least one item".to_owned(),
            ArithmeticError::InvalidCount => "Count must be a non-negative integer".to_owned(),
            ArithmeticError::EmptyWindow => "Window must hold at least one item".to_owned(),
            ArithmeticError::NotSquare => "Unable to invert a non-square matrix".to_owned(),
            ArithmeticError::Singular => "Matrix is singular and cannot be inverted".to_owned(),
        }
    }
}

} // verus!
