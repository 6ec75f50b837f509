//! The type registry: the closed enumeration of element kinds a column can
//! carry, and the compile-time binding from each storable Rust type to its
//! kind tag.

use vstd::prelude::*;

verus! {

/// The closed set of element kinds. `List` carries the inner kind
/// recursively; every concrete column element maps to exactly one
/// non-list kind.
#[derive(Debug, Eq, Hash)]
pub enum DataType {
    Null,
    Bool,
    Int8,
    Int16,
    Int32,
    Int64,
    Int128,
    UInt8,
    UInt16,
    UInt32,
    UInt64,
    UInt128,
    Float32,
    Float64,
    String,
    List(Box<DataType>),
}

/// Structural equality on kind tags, usable from executable code.
pub fn dtype_eq(a: &DataType, b: &DataType) -> (r: bool)
    ensures
        r == (a == b),
    decreases a,
{
    match (a, b) {
        (DataType::Null, DataType::Null) => true,
        (DataType::Bool, DataType::Bool) => true,
        (DataType::Int8, DataType::Int8) => true,
        (DataType::Int16, DataType::Int16) => true,
        (DataType::Int32, DataType::Int32) => true,
        (DataType::Int64, DataType::Int64) => true,
        (DataType::Int128, DataType::Int128) => true,
        (DataType::UInt8, DataType::UInt8) => true,
        (DataType::UInt16, DataType::UInt16) => true,
        (DataType::UInt32, DataType::UInt32) => true,
        (DataType::UInt64, DataType::UInt64) => true,
        (DataType::UInt128, DataType::UInt128) => true,
        (DataType::Float32, DataType::Float32) => true,
        (DataType::Float64, DataType::Float64) => true,
        (DataType::String, DataType::String) => true,
        (DataType::List(x), DataType::List(y)) => dtype_eq(x, y),
        _ => false,
    }
}

/// A deep copy of a kind tag.
pub fn dtype_clone(a: &DataType) -> (r: DataType)
    ensures
        r == *a,
    decreases a,
{
    match a {
        DataType::Null => DataType::Null,
        DataType::Bool => DataType::Bool,
        DataType::Int8 => DataType::Int8,
        DataType::Int16 => DataType::Int16,
        DataType::Int32 => DataType::Int32,
        DataType::Int64 => DataType::Int64,
        DataType::Int128 => DataType::Int128,
        DataType::UInt8 => DataType::UInt8,
        DataType::UInt16 => DataType::UInt16,
        DataType::UInt32 => DataType::UInt32,
        DataType::UInt64 => DataType::UInt64,
        DataType::UInt128 => DataType::UInt128,
        DataType::Float32 => DataType::Float32,
        DataType::Float64 => DataType::Float64,
        DataType::String => DataType::String,
        DataType::List(x) => DataType::List(Box::new(dtype_clone(x))),
    }
}

impl Clone for DataType {
    fn clone(&self) -> (r: Self)
        ensures
            r == *self,
    {
        dtype_clone(self)
    }
}

impl PartialEq for DataType {
    fn eq(&self, other: &Self) -> bool {
        dtype_eq(self, other)
    }
}

impl vstd::std_specs::cmp::PartialEqSpecImpl for DataType {
    open spec fn obeys_eq_spec() -> bool {
        true
    }

    open spec fn eq_spec(&self, other: &Self) -> bool {
        self == other
    }
}

pub open spec fn is_float_kind(dt: DataType) -> bool {
    dt == DataType::Float32 || dt == DataType::Float64
}

pub open spec fn is_integer_kind(dt: DataType) -> bool {
    ||| dt == DataType::Int8
    ||| dt == DataType::Int16
    ||| dt == DataType::Int32
    ||| dt == DataType::Int64
    ||| dt == DataType::Int128
    ||| dt == DataType::UInt8
    ||| dt == DataType::UInt16
    ||| dt == DataType::UInt32
    ||| dt == DataType::UInt64
    ||| dt == DataType::UInt128
}

/// The kinds whose values take part in numeric operations; the 128-bit
/// kinds are deliberately not among them.
pub open spec fn is_numeric_kind(dt: DataType) -> bool {
    ||| dt == DataType::Int8
    ||| dt == DataType::Int16
    ||| dt == DataType::Int32
    ||| dt == DataType::Int64
    ||| dt == DataType::UInt8
    ||| dt == DataType::UInt16
    ||| dt == DataType::UInt32
    ||| dt == DataType::UInt64
    ||| dt == DataType::Float32
    ||| dt == DataType::Float64
}

impl DataType {
    /// Whether this kind is a floating-point kind.
    pub fn is_float(&self) -> (r: bool)
        ensures
            r == is_float_kind(*self),
    {
        matches!(self, DataType::Float32 | DataType::Float64)
    }

    /// Whether this kind is an integer kind (signed or unsigned, any width).
    pub fn is_integer(&self) -> (r: bool)
        ensures
            r == is_integer_kind(*self),
    {
        matches!(
            self,
            DataType::Int8 | DataType::Int16 | DataType::Int32 | DataType::Int64
                | DataType::Int128 | DataType::UInt8 | DataType::UInt16 | DataType::UInt32
                | DataType::UInt64 | DataType::UInt128
        )
    }

    /// Whether this kind is numeric (integer or float, 64 bits or fewer).
    pub fn is_numeric(&self) -> (r: bool)
        ensures
            r == is_numeric_kind(*self),
    {
        matches!(
            self,
            DataType::Int8 | DataType::Int16 | DataType::Int32 | DataType::Int64
                | DataType::UInt8 | DataType::UInt16 | DataType::UInt32 | DataType::UInt64
                | DataType::Float32 | DataType::Float64
        )
    }
}

/// The compile-time binding from a storable Rust type to its kind tag.
pub trait DataTypeTrait {
    /// The kind tag this type is bound to.
    spec fn dtype_spec() -> DataType;

    /// The kind tag of a value, always `Self::dtype_spec()`.
    fn as_dtype(&self) -> (r: DataType)
        ensures
            r == Self::dtype_spec(),
    ;
}

impl DataTypeTrait for i8 {
    open spec fn dtype_spec() -> DataType {
        DataType::Int8
    }

    fn as_dtype(&self) -> DataType {
        DataType::Int8
    }
}

impl DataTypeTrait for i16 {
    open spec fn dtype_spec() -> DataType {
        DataType::Int16
    }

    fn as_dtype(&self) -> DataType {
        DataType::Int16
    }
}

impl DataTypeTrait for i32 {
    open spec fn dtype_spec() -> DataType {
        DataType::Int32
    }

    fn as_dtype(&self) -> DataType {
        DataType::Int32
    }
}

impl DataTypeTrait for i64 {
    open spec fn dtype_spec() -> DataType {
        DataType::Int64
    }

    fn as_dtype(&self) -> DataType {
        DataType::Int64
    }
}

impl DataTypeTrait for u8 {
    open spec fn dtype_spec() -> DataType {
        DataType::UInt8
    }

    fn as_dtype(&self) -> DataType {
        DataType::UInt8
    }
}

impl DataTypeTrait for u16 {
    open spec fn dtype_spec() -> DataType {
        DataType::UInt16
    }

    fn as_dtype(&self) -> DataType {
        DataType::UInt16
    }
}

impl DataTypeTrait for u32 {
    open spec fn dtype_spec() -> DataType {
        DataType::UInt32
    }

    fn as_dtype(&self) -> DataType {
        DataType::UInt32
    }
}

impl DataTypeTrait for u64 {
    open spec fn dtype_spec() -> DataType {
        DataType::UInt64
    }

    fn as_dtype(&self) -> DataType {
        DataType::UInt64
    }
}

impl DataTypeTrait for bool {
    open spec fn dtype_spec() -> DataType {
        DataType::Bool
    }

    fn as_dtype(&self) -> DataType {
        DataType::Bool
    }
}

impl DataTypeTrait for String {
    open spec fn dtype_spec() -> DataType {
        DataType::String
    }

    fn as_dtype(&self) -> DataType {
        DataType::String
    }
}

} // verus!
