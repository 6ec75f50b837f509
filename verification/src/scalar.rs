//! A single stored cell value. Every cell of a column carries one `Scalar`
//! (or is missing); the well-formedness invariant of a column says that all
//! present cells carry the column's kind.

use vstd::prelude::*;
use core::cmp::Ordering;
use crate::dtype::DataType;
use crate::strutil::{lex_cmp_chars, str_compare, str_eq, lemma_lex_cmp_equal};

verus! {

/// One present cell value of a column.
#[derive(Debug)]
pub enum Scalar {
    Bool(bool),
    Int8(i8),
    Int16(i16),
    Int32(i32),
    Int64(i64),
    UInt8(u8),
    UInt16(u16),
    UInt32(u32),
    UInt64(u64),
    Str(String),
}

/// The mathematical model of a cell value: a string is seen as its
/// character sequence.
#[verifier::ext_equal]
pub enum ScalarV {
    Bool(bool),
    Int8(i8),
    Int16(i16),
    Int32(i32),
    Int64(i64),
    UInt8(u8),
    UInt16(u16),
    UInt32(u32),
    UInt64(u64),
    Str(Seq<char>),
}

impl DeepView for Scalar {
    type V = ScalarV;

    open spec fn deep_view(&self) -> ScalarV {
        match self {
            Scalar::Bool(b) => ScalarV::Bool(*b),
            Scalar::Int8(v) => ScalarV::Int8(*v),
            Scalar::Int16(v) => ScalarV::Int16(*v),
            Scalar::Int32(v) => ScalarV::Int32(*v),
            Scalar::Int64(v) => ScalarV::Int64(*v),
            Scalar::UInt8(v) => ScalarV::UInt8(*v),
            Scalar::UInt16(v) => ScalarV::UInt16(*v),
            Scalar::UInt32(v) => ScalarV::UInt32(*v),
            Scalar::UInt64(v) => ScalarV::UInt64(*v),
            Scalar::Str(s) => ScalarV::Str(s@),
        }
    }
}

/// The kind tag a modelled cell value carries.
pub open spec fn sv_kind(v: ScalarV) -> DataType {
    match v {
        ScalarV::Bool(_) => DataType::Bool,
        ScalarV::Int8(_) => DataType::Int8,
        ScalarV::Int16(_) => DataType::Int16,
        ScalarV::Int32(_) => DataType::Int32,
        ScalarV::Int64(_) => DataType::Int64,
        ScalarV::UInt8(_) => DataType::UInt8,
        ScalarV::UInt16(_) => DataType::UInt16,
        ScalarV::UInt32(_) => DataType::UInt32,
        ScalarV::UInt64(_) => DataType::UInt64,
        ScalarV::Str(_) => DataType::String,
    }
}

impl Scalar {
    /// The kind tag this value carries.
    pub fn kind(&self) -> (r: DataType)
        ensures
            r == sv_kind(self.deep_view()),
    {
        match self {
            Scalar::Bool(_) => DataType::Bool,
            Scalar::Int8(_) => DataType::Int8,
            Scalar::Int16(_) => DataType::Int16,
            Scalar::Int32(_) => DataType::Int32,
            Scalar::Int64(_) => DataType::Int64,
            Scalar::UInt8(_) => DataType::UInt8,
            Scalar::UInt16(_) => DataType::UInt16,
            Scalar::UInt32(_) => DataType::UInt32,
            Scalar::UInt64(_) => DataType::UInt64,
            Scalar::Str(_) => DataType::String,
        }
    }
}

impl Clone for Scalar {
    fn clone(&self) -> (r: Self)
        ensures
            r == *self,
    {
        match self {
            Scalar::Bool(b) => Scalar::Bool(*b),
            Scalar::Int8(v) => Scalar::Int8(*v),
            Scalar::Int16(v) => Scalar::Int16(*v),
            Scalar::Int32(v) => Scalar::Int32(*v),
            Scalar::Int64(v) => Scalar::Int64(*v),
            Scalar::UInt8(v) => Scalar::UInt8(*v),
            Scalar::UInt16(v) => Scalar::UInt16(*v),
            Scalar::UInt32(v) => Scalar::UInt32(*v),
            Scalar::UInt64(v) => Scalar::UInt64(*v),
            Scalar::Str(s) => Scalar::Str(s.clone()),
        }
    }
}

impl PartialEq for Scalar {
    fn eq(&self, other: &Self) -> bool {
        scalar_eq(self, other)
    }
}

impl vstd::std_specs::cmp::PartialEqSpecImpl for Scalar {
    open spec fn obeys_eq_spec() -> bool {
        true
    }

    open spec fn eq_spec(&self, other: &Self) -> bool {
        self.deep_view() == other.deep_view()
    }
}

/// Copies a possibly-missing cell.
pub fn clone_cell(c: &Option<Scalar>) -> (r: Option<Scalar>)
    ensures
        r == *c,
{
    match c {
        Option::None => Option::None,
        Option::Some(s) => Option::Some(s.clone()),
    }
}

/// Whether two modelled cell values are the same.
pub fn scalar_eq(a: &Scalar, b: &Scalar) -> (r: bool)
    ensures
        r == (a.deep_view() == b.deep_view()),
{
    match (a, b) {
        (Scalar::Bool(x), Scalar::Bool(y)) => x == y,
        (Scalar::Int8(x), Scalar::Int8(y)) => x == y,
        (Scalar::Int16(x), Scalar::Int16(y)) => x == y,
        (Scalar::Int32(x), Scalar::Int32(y)) => x == y,
        (Scalar::Int64(x), Scalar::Int64(y)) => x == y,
        (Scalar::UInt8(x), Scalar::UInt8(y)) => x == y,
        (Scalar::UInt16(x), Scalar::UInt16(y)) => x == y,
        (Scalar::UInt32(x), Scalar::UInt32(y)) => x == y,
        (Scalar::UInt64(x), Scalar::UInt64(y)) => x == y,
        (Scalar::Str(x), Scalar::Str(y)) => {
            let r = str_eq(x.as_str(), y.as_str());
            proof {
                assert(a.deep_view() == b.deep_view() <==> x@ == y@);
            }
            r
        },
        _ => {
            proof {
                assert(a.deep_view() != b.deep_view());
            }
            false
        },
    }
}

/// Whether two possibly-missing cells are the same.
pub fn cell_eq(a: &Option<Scalar>, b: &Option<Scalar>) -> (r: bool)
    ensures
        r == (a.deep_view() == b.deep_view()),
{
    match (a, b) {
        (Option::None, Option::None) => true,
        (Option::Some(x), Option::Some(y)) => scalar_eq(x, y),
        _ => false,
    }
}

/// Three-way comparison of two modelled cell values. Values of one kind
/// compare by their natural order (`false` before `true`, strings by
/// their characters); values of different kinds compare `Equal`, as the
/// engine never ranks across kinds.
pub open spec fn sv_cmp(a: ScalarV, b: ScalarV) -> Ordering {
    match (a, b) {
        (ScalarV::Bool(x), ScalarV::Bool(y)) => if !x && y {
            Ordering::Less
        } else if x && !y {
            Ordering::Greater
        } else {
            Ordering::Equal
        },
        (ScalarV::Int8(x), ScalarV::Int8(y)) => int_cmp(x as int, y as int),
        (ScalarV::Int16(x), ScalarV::Int16(y)) => int_cmp(x as int, y as int),
        (ScalarV::Int32(x), ScalarV::Int32(y)) => int_cmp(x as int, y as int),
        (ScalarV::Int64(x), ScalarV::Int64(y)) => int_cmp(x as int, y as int),
        (ScalarV::UInt8(x), ScalarV::UInt8(y)) => int_cmp(x as int, y as int),
        (ScalarV::UInt16(x), ScalarV::UInt16(y)) => int_cmp(x as int, y as int),
        (ScalarV::UInt32(x), ScalarV::UInt32(y)) => int_cmp(x as int, y as int),
        (ScalarV::UInt64(x), ScalarV::UInt64(y)) => int_cmp(x as int, y as int),
        (ScalarV::Str(x), ScalarV::Str(y)) => lex_cmp_chars(x, y),
        _ => Ordering::Equal,
    }
}

/// Three-way comparison of two mathematical integers.
pub open spec fn int_cmp(x: int, y: int) -> Ordering {
    if x < y {
        Ordering::Less
    } else if x > y {
        Ordering::Greater
    } else {
        Ordering::Equal
    }
}

/// Three-way comparison of two cell values.
pub fn scalar_cmp(a: &Scalar, b: &Scalar) -> (r: Ordering)
    ensures
        r == sv_cmp(a.deep_view(), b.deep_view()),
{
    match (a, b) {
        (Scalar::Bool(x), Scalar::Bool(y)) => if !*x && *y {
            Ordering::Less
        } else if *x && !*y {
            Ordering::Greater
        } else {
            Ordering::Equal
        },
        (Scalar::Int8(x), Scalar::Int8(y)) => if x < y {
            Ordering::Less
        } else if x > y {
            Ordering::Greater
        } else {
            Ordering::Equal
        },
        (Scalar::Int16(x), Scalar::Int16(y)) => if x < y {
            Ordering::Less
        } else if x > y {
            Ordering::Greater
        } else {
            Ordering::Equal
        },
        (Scalar::Int32(x), Scalar::Int32(y)) => if x < y {
            Ordering::Less
        } else if x > y {
            Ordering::Greater
        } else {
            Ordering::Equal
        },
        (Scalar::Int64(x), Scalar::Int64(y)) => if x < y {
            Ordering::Less
        } else if x > y {
            Ordering::Greater
        } else {
            Ordering::Equal
        },
        (Scalar::UInt8(x), Scalar::UInt8(y)) => if x < y {
            Ordering::Less
        } else if x > y {
            Ordering::Greater
        } else {
            Ordering::Equal
        },
        (Scalar::UInt16(x), Scalar::UInt16(y)) => if x < y {
            Ordering::Less
        } else if x > y {
            Ordering::Greater
        } else {
            Ordering::Equal
        },
        (Scalar::UInt32(x), Scalar::UInt32(y)) => if x < y {
            Ordering::Less
        } else if x > y {
            Ordering::Greater
        } else {
            Ordering::Equal
        },
        (Scalar::UInt64(x), Scalar::UInt64(y)) => if x < y {
            Ordering::Less
        } else if x > y {
            Ordering::Greater
        } else {
            Ordering::Equal
        },
        (Scalar::Str(x), Scalar::Str(y)) => str_compare(x.as_str(), y.as_str()),
        _ => Ordering::Equal,
    }
}

/// Whether a modelled cell is the boolean `true`; this is what a mask
/// keeps.
pub open spec fn is_true_cell(c: Option<ScalarV>) -> bool {
    c == Some(ScalarV::Bool(true))
}

/// Whether a numeric cell value is zero.
pub open spec fn sv_is_zero(v: ScalarV) -> bool {
    match v {
        ScalarV::Int8(x) => x == 0,
        ScalarV::Int16(x) => x == 0,
        ScalarV::Int32(x) => x == 0,
        ScalarV::Int64(x) => x == 0,
        ScalarV::UInt8(x) => x == 0,
        ScalarV::UInt16(x) => x == 0,
        ScalarV::UInt32(x) => x == 0,
        ScalarV::UInt64(x) => x == 0,
        _ => false,
    }
}

/// Whether a cell value is numeric zero.
pub fn scalar_is_zero(s: &Scalar) -> (r: bool)
    ensures
        r == sv_is_zero(s.deep_view()),
{
    match s {
        Scalar::Int8(x) => *x == 0,
        Scalar::Int16(x) => *x == 0,
        Scalar::Int32(x) => *x == 0,
        Scalar::Int64(x) => *x == 0,
        Scalar::UInt8(x) => *x == 0,
        Scalar::UInt16(x) => *x == 0,
        Scalar::UInt32(x) => *x == 0,
        Scalar::UInt64(x) => *x == 0,
        _ => false,
    }
}

} // verus!
