pub mod basic_matrix;
pub mod basic_operations_trait;
pub mod csr_matrix;
pub mod direct_solution;
pub mod elements;
pub mod elimination;
pub mod extended_matrix;
pub mod flat;
pub mod float_trait;
pub mod functions;
pub mod gep;
pub mod into_matrix_trait;
pub mod lup;
pub mod matrix;
pub mod matrix_element_position;
pub mod messages;
pub mod new_extended_matrix;
pub mod one;
pub mod operation;
pub mod position;
pub mod rearrangement;
pub mod row_order;
pub mod shape;
pub mod square_matrix;
pub mod square_matrix_trait;
pub mod symmetric_matrix;
pub mod try_into_square_matrix_trait;
pub mod try_into_symmetric_compacted_matrix_trait;
pub mod try_into_symmetric_matrix_trait;
pub mod uint_trait;
pub mod vector;
pub mod vector_3;
pub mod vector_trait;

pub use basic_matrix::{BasicMatrix, BasicMatrixType};
pub use basic_operations_trait::{BasicOperationsTrait, MatrixOperationsTrait};
pub use csr_matrix::CsrMatrix;
pub use elements::Elements;
pub use extended_matrix::ExtendedMatrix;
pub use float_trait::FloatTrait;
pub use into_matrix_trait::IntoMatrixTrait;
pub use matrix::Matrix;
pub use matrix_element_position::MatrixElementPosition;
pub use new_extended_matrix::NewExtendedMatrix;
pub use one::One;
pub use operation::Operation;
pub use position::Position;
pub use shape::Shape;
pub use square_matrix::SquareMatrix;
pub use square_matrix_trait::SquareMatrixTrait;
pub use symmetric_matrix::SymmetricMatrix;
pub use try_into_square_matrix_trait::TryIntoSquareMatrixTrait;
pub use try_into_symmetric_compacted_matrix_trait::TryIntoSymmetricCompactedMatrixTrait;
pub use try_into_symmetric_matrix_trait::TryIntoSymmetricMatrixTrait;
pub use uint_trait::UIntTrait;
pub use vector::Vector;
pub use vector_3::Vector3;
pub use vector_trait::VectorTrait;
