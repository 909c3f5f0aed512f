//! Runtime values of the Ago language: a tagged union of value kinds, the casting
//! matrix between kinds, container access and mutation, operators, and iteration.
//!
//! Floats are held as binary64 bit patterns. The few computations that need binary64
//! arithmetic (decimal text, parsing, conversion to and from integers, the arithmetic
//! and ordering operators) are answered by a caller-supplied provider of `FloatOp`s;
//! everything else, bit-level float facts included, is computed here.
pub mod error;
pub mod types;
pub mod floats;
pub mod text;
pub mod equality;
pub mod casting;
pub mod collections;
pub mod operators;
pub mod functions;
pub mod iterators;
pub mod laws;

pub use error::AgoError;
pub use types::{AgoRange, AgoType, TargetType, FileStruct};
pub use floats::{FloatOp, FloatOut};
pub use operators::{
    add, subtract, multiply, divide, modulo, greater_than, greater_equal, less_than, less_equal,
    and, or, not, bitwise_and, bitwise_or, bitwise_xor, slice, sliceto, contains, elvis,
    unary_minus, unary_plus,
};
pub use collections::{get, inseri, removium, validate_list_type, range_bounds};
pub use functions::{species, aequalam, claverum};
pub use iterators::{into_iter, AgoIter};
