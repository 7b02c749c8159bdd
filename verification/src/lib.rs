pub mod dense;
pub mod error;
pub mod float;
pub mod matrix;
pub mod matrix_functions;
pub mod matrix_lemmas;
pub mod moving_functions;
pub mod shape;
pub mod stats;
pub mod validation_functions;
pub mod value;
