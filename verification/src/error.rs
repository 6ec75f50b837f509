//! The error kinds that table and column operations report. Failures are
//! local: an operation that fails leaves its receiver unchanged.

use vstd::prelude::*;
use crate::dtype::DataType;

verus! {

/// An error raised when narrowing a column to a concrete element type fails.
#[derive(Debug)]
pub struct CastError(pub String);

/// Everything a table or column operation can report.
#[derive(Debug)]
pub enum AxionError {
    /// A column's length disagrees with the expected row count.
    MismatchedLengths { expected: usize, found: usize, name: String },
    /// Two columns carry the same name.
    DuplicateColumnName(String),
    /// No column of the given name (or positional index) exists.
    ColumnNotFound(String),
    /// An operation was asked of a column whose kind cannot carry it.
    TypeError { expected: String, found: DataType, name: String },
    /// Narrowing a column to a concrete kind found another kind stored.
    TypeMismatch { expected: DataType, found: DataType, name: String },
    /// A table was to be built from no columns at all.
    NoColumnsProvided,
    /// A conversion between element kinds failed.
    CastError(CastError),
    /// A join key column has the wrong kind on one side.
    JoinKeyTypeError { side: String, name: String, expected: DataType, found: DataType },
    /// An index reached past the end of a column: (index, length).
    IndexOutOfBounds(usize, usize),
    /// An index reached past the end of a collection: (index, length).
    IndexOutOfRange(usize, usize),
    /// A numeric computation could not be carried out.
    ComputeError(String),
    /// The operation is not offered for the given kind.
    UnsupportedOperation(String),
    /// An argument did not meet the operation's expectations.
    InvalidArgument(String),
    /// An invariant that should be unreachable was violated.
    InternalError(String),
    /// A delimited-text record could not be handled.
    CsvError(String),
    /// Reading or writing an external source failed.
    IoError(String),
    /// Anything else.
    Other(String),
}

/// The result type every fallible operation of this crate returns.
pub type AxionResult<T> = Result<T, AxionError>;

} // verus!
