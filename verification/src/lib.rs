//! An in-process, typed, columnar table engine: named, equal-length, nullable
//! columns gathered into tables, with selection, filtering, sorting, hash
//! joins, group-by aggregation and elementwise (optionally parallel)
//! transforms.

mod agg;
mod apply;
mod arith;
mod arith2;
mod csvopt;
mod dtype;
mod error;
mod groupby;
mod join;
mod laws;
mod ord;
mod parse;
mod rowops;
mod scalar;
mod series;
mod sort;
mod strops;
mod strutil;
mod table;
mod table_ops;
mod transform;
mod types;

pub use csvopt::QuoteStyle;
pub use csvopt::ReadCsvOptions;
pub use csvopt::ReadCsvOptionsBuilder;
pub use csvopt::WriteCsvOptions;
pub use csvopt::WriteCsvOptionsBuilder;
pub use dtype::DataType;
pub use dtype::DataTypeTrait;
pub use dtype::dtype_eq;
pub use dtype::is_float_kind;
pub use dtype::is_integer_kind;
pub use dtype::is_numeric_kind;
pub use error::AxionError;
pub use error::AxionResult;
pub use error::CastError;
pub use groupby::GroupBy;
pub use parse::infer_column_type;
pub use parse::is_float_literal;
pub use parse::parse_column_as_type;
pub use parse::try_parse_bool;
pub use parse::try_parse_i64;
pub use scalar::Scalar;
pub use scalar::ScalarV;
pub use series::Series;
pub use series::SeriesFlags;
pub use series::SeriesV;
pub use strops::StringAccessor;
pub use table::DataFrame;
pub use table::DataFrameV;
pub use types::GroupKey;
pub use types::GroupKeyV;
pub use types::GroupKeyValue;
