//! Column-to-column arithmetic and comparison, and the whole-column
//! aggregates: sum, minimum and maximum over the present values.

use vstd::prelude::*;
use core::cmp::Ordering;
use crate::dtype::DataType;
use crate::error::{AxionError, AxionResult};
use crate::scalar::{Scalar, ScalarV, sv_kind, sv_cmp, scalar_cmp};
use crate::series::{Series, SeriesFlags, SeriesV, cell_ok};
use crate::arith::{
    ArithOp, CmpOp, sv_arith, sv_compare, scalar_arith, scalar_compare, arith_series_model,
    cmp_series_model, arith_series_defined,
};

verus! {

impl Series {
    /// Applies one arithmetic operator cell by cell against another
    /// column of the same kind and length.
    fn arith_series(&self, op: ArithOp, other: &Series, mid: &str) -> (r: AxionResult<Series>)
        requires
            self.wf(),
            other.wf(),
            self@.dtype == other@.dtype,
            self@.cells.len() == other@.cells.len() ==> arith_series_defined(
                self@.cells,
                other@.cells,
                op,
            ),
        ensures
            r is Ok <==> self@.cells.len() == other@.cells.len(),
            r matches Ok(s) ==> {
                &&& s@.name == self@.name + mid@ + other@.name
                &&& s@.dtype == self@.dtype
                &&& s@.cells == arith_series_model(self@.cells, other@.cells, op)
                &&& s.wf()
            },
            r matches Err(e) ==> e matches AxionError::MismatchedLengths { expected, found, name }
                && expected == self@.cells.len() && found == other@.cells.len() && name@
                == other@.name,
    {
        if self.data.len() != other.data.len() {
            return Err(
                AxionError::MismatchedLengths {
                    expected: self.data.len(),
                    found: other.data.len(),
                    name: String::from_str(other.name()),
                },
            );
        }
        let n = self.data.len();
        let mut out: Vec<Option<Scalar>> = Vec::new();
        let mut i: usize = 0;
        while i < n
            invariant
                0 <= i <= n,
                n == self@.cells.len(),
                n == other@.cells.len(),
                self.wf(),
                other.wf(),
                arith_series_defined(self@.cells, other@.cells, op),
                out@.len() == i,
                forall|k: int|
                    0 <= k < i ==> (#[trigger] out@[k]).deep_view() == (
                    match (self@.cells[k], other@.cells[k]) {
                        (Some(x), Some(y)) => sv_arith(op, x, y),
                        _ => None,
                    }),
            decreases n - i,
        {
            proof {
                assert(self.data.deep_view()[i as int] == self.data@[i as int].deep_view());
                assert(other.data.deep_view()[i as int] == other.data@[i as int].deep_view());
            }
            let cell = match (&self.data[i], &other.data[i]) {
                (Some(x), Some(y)) => scalar_arith(op, x, y),
                _ => None,
            };
            out.push(cell);
            i = i + 1;
        }
        let name = self.name.clone().concat(mid).concat(other.name());
        let r = Series { name, dtype: self.dtype.clone(), data: out, flags: SeriesFlags::new() };
        proof {
            assert(r@.cells =~= arith_series_model(self@.cells, other@.cells, op));
            assert forall|k: int| 0 <= k < r@.cells.len() implies cell_ok(
                #[trigger] r@.cells[k],
                r@.dtype,
            ) by {
                assert(cell_ok(self@.cells[k], self@.dtype));
                assert(cell_ok(other@.cells[k], other@.dtype));
                if r@.cells[k] is Some {
                    let w = r@.cells[k]->0;
                    let x = self@.cells[k]->0;
                    let y = other@.cells[k]->0;
                    assert(sv_arith(op, x, y) == Some(w));
                    assert(sv_kind(w) == sv_kind(x));
                }
            }
        }
        Ok(r)
    }

    /// Applies one comparison operator cell by cell against another
    /// column of the same kind and length.
    fn compare_series(&self, op: CmpOp, other: &Series, suffix: &str) -> (r: AxionResult<Series>)
        requires
            self.wf(),
            other.wf(),
            self@.dtype == other@.dtype,
        ensures
            r is Ok <==> self@.cells.len() == other@.cells.len(),
            r matches Ok(s) ==> {
                &&& s@.name == self@.name + suffix@
                &&& s@.dtype == DataType::Bool
                &&& s@.cells == cmp_series_model(self@.cells, other@.cells, op)
                &&& s.wf()
            },
            r matches Err(e) ==> e matches AxionError::MismatchedLengths { expected, found, name }
                && expected == self@.cells.len() && found == other@.cells.len() && name@
                == other@.name,
    {
        if self.data.len() != other.data.len() {
            return Err(
                AxionError::MismatchedLengths {
                    expected: self.data.len(),
                    found: other.data.len(),
                    name: String::from_str(other.name()),
                },
            );
        }
        let n = self.data.len();
        let mut out: Vec<Option<Scalar>> = Vec::new();
        let mut i: usize = 0;
        while i < n
            invariant
                0 <= i <= n,
                n == self@.cells.len(),
                n == other@.cells.len(),
                self.wf(),
                other.wf(),
                out@.len() == i,
                forall|k: int|
                    0 <= k < i ==> (#[trigger] out@[k]).deep_view() == (
                    match (self@.cells[k], other@.cells[k]) {
                        (Some(x), Some(y)) => Some(ScalarV::Bool(sv_compare(op, x, y))),
                        _ => None,
                    }),
            decreases n - i,
        {
            proof {
                assert(self.data.deep_view()[i as int] == self.data@[i as int].deep_view());
                assert(other.data.deep_view()[i as int] == other.data@[i as int].deep_view());
            }
            let cell = match (&self.data[i], &other.data[i]) {
                (Some(x), Some(y)) => Some(Scalar::Bool(scalar_compare(op, x, y))),
                _ => None,
            };
            out.push(cell);
            i = i + 1;
        }
        let name = self.name.clone().concat(suffix);
        let r = Series { name, dtype: DataType::Bool, data: out, flags: SeriesFlags::new() };
        proof {
            assert(r@.cells =~= cmp_series_model(self@.cells, other@.cells, op));
        }
        Ok(r)
    }

    /// Elementwise sum of two columns; overflow is excluded up front.
    pub fn add_series(&self, other: &Series) -> (r: AxionResult<Series>)
        requires
            self.wf(),
            other.wf(),
            self@.dtype == other@.dtype,
            self@.cells.len() == other@.cells.len() ==> arith_series_defined(
                self@.cells,
                other@.cells,
                ArithOp::Add,
            ),
        ensures
            r is Ok <==> self@.cells.len() == other@.cells.len(),
            r matches Ok(s) ==> s@.name == self@.name + "_add_series_"@ + other@.name
                && s@.cells == arith_series_model(
                self@.cells,
                other@.cells,
                ArithOp::Add,
            ) && s@.dtype == self@.dtype && s.wf(),
            r matches Err(e) ==> e matches AxionError::MismatchedLengths { expected, found, name }
                && expected == self@.cells.len() && found == other@.cells.len() && name@
                == other@.name,
    {
        self.arith_series(ArithOp::Add, other, "_add_series_")
    }

    /// Elementwise difference of two columns; overflow is excluded up
    /// front.
    pub fn sub_series(&self, other: &Series) -> (r: AxionResult<Series>)
        requires
            self.wf(),
            other.wf(),
            self@.dtype == other@.dtype,
            self@.cells.len() == other@.cells.len() ==> arith_series_defined(
                self@.cells,
                other@.cells,
                ArithOp::Sub,
            ),
        ensures
            r is Ok <==> self@.cells.len() == other@.cells.len(),
            r matches Ok(s) ==> s@.name == self@.name + "_sub_series_"@ + other@.name
                && s@.cells == arith_series_model(
                self@.cells,
                other@.cells,
                ArithOp::Sub,
            ) && s@.dtype == self@.dtype && s.wf(),
            r matches Err(e) ==> e matches AxionError::MismatchedLengths { expected, found, name }
                && expected == self@.cells.len() && found == other@.cells.len() && name@
                == other@.name,
    {
        self.arith_series(ArithOp::Sub, other, "_sub_series_")
    }

    /// Elementwise product of two columns; overflow is excluded up
    /// front.
    pub fn mul_series(&self, other: &Series) -> (r: AxionResult<Series>)
        requires
            self.wf(),
            other.wf(),
            self@.dtype == other@.dtype,
            self@.cells.len() == other@.cells.len() ==> arith_series_defined(
                self@.cells,
                other@.cells,
                ArithOp::Mul,
            ),
        ensures
            r is Ok <==> self@.cells.len() == other@.cells.len(),
            r matches Ok(s) ==> s@.name == self@.name + "_mul_series_"@ + other@.name
                && s@.cells == arith_series_model(
                self@.cells,
                other@.cells,
                ArithOp::Mul,
            ) && s@.dtype == self@.dtype && s.wf(),
            r matches Err(e) ==> e matches AxionError::MismatchedLengths { expected, found, name }
                && expected == self@.cells.len() && found == other@.cells.len() && name@
                == other@.name,
    {
        self.arith_series(ArithOp::Mul, other, "_mul_series_")
    }

    /// Elementwise quotient of two columns. A zero entry inside the
    /// divisor column would fault, so it is excluded up front.
    pub fn div_series(&self, other: &Series) -> (r: AxionResult<Series>)
        requires
            self.wf(),
            other.wf(),
            self@.dtype == other@.dtype,
            self@.cells.len() == other@.cells.len() ==> arith_series_defined(
                self@.cells,
                other@.cells,
                ArithOp::Div,
            ),
        ensures
            r is Ok <==> self@.cells.len() == other@.cells.len(),
            r matches Ok(s) ==> s@.name == self@.name + "_div_series_"@ + other@.name
                && s@.cells == arith_series_model(
                self@.cells,
                other@.cells,
                ArithOp::Div,
            ) && s@.dtype == self@.dtype && s.wf(),
            r matches Err(e) ==> e matches AxionError::MismatchedLengths { expected, found, name }
                && expected == self@.cells.len() && found == other@.cells.len() && name@
                == other@.name,
    {
        self.arith_series(ArithOp::Div, other, "_div_series_")
    }

    /// Elementwise remainder of two columns. A zero entry inside the
    /// divisor column would fault, so it is excluded up front.
    pub fn rem_series(&self, other: &Series) -> (r: AxionResult<Series>)
        requires
            self.wf(),
            other.wf(),
            self@.dtype == other@.dtype,
            self@.cells.len() == other@.cells.len() ==> arith_series_defined(
                self@.cells,
                other@.cells,
                ArithOp::Rem,
            ),
        ensures
            r is Ok <==> self@.cells.len() == other@.cells.len(),
            r matches Ok(s) ==> s@.name == self@.name + "_rem_series_"@ + other@.name
                && s@.cells == arith_series_model(
                self@.cells,
                other@.cells,
                ArithOp::Rem,
            ) && s@.dtype == self@.dtype && s.wf(),
            r matches Err(e) ==> e matches AxionError::MismatchedLengths { expected, found, name }
                && expected == self@.cells.len() && found == other@.cells.len() && name@
                == other@.name,
    {
        self.arith_series(ArithOp::Rem, other, "_rem_series_")
    }

    /// Elementwise greater-than of two columns.
    pub fn gt_series(&self, other: &Series) -> (r: AxionResult<Series>)
        requires
            self.wf(),
            other.wf(),
            self@.dtype == other@.dtype,
        ensures
            r is Ok <==> self@.cells.len() == other@.cells.len(),
            r matches Ok(s) ==> s@.name == self@.name + "_gt_series"@ && s@.cells
                == cmp_series_model(self@.cells, other@.cells, CmpOp::Gt) && s@.dtype
                == DataType::Bool && s.wf(),
            r matches Err(e) ==> e matches AxionError::MismatchedLengths { expected, found, name }
                && expected == self@.cells.len() && found == other@.cells.len() && name@
                == other@.name,
    {
        self.compare_series(CmpOp::Gt, other, "_gt_series")
    }

    /// Elementwise less-than of two columns.
    pub fn lt_series(&self, other: &Series) -> (r: AxionResult<Series>)
        requires
            self.wf(),
            other.wf(),
            self@.dtype == other@.dtype,
        ensures
            r is Ok <==> self@.cells.len() == other@.cells.len(),
            r matches Ok(s) ==> s@.name == self@.name + "_lt_series"@ && s@.cells
                == cmp_series_model(self@.cells, other@.cells, CmpOp::Lt) && s@.dtype
                == DataType::Bool && s.wf(),
            r matches Err(e) ==> e matches AxionError::MismatchedLengths { expected, found, name }
                && expected == self@.cells.len() && found == other@.cells.len() && name@
                == other@.name,
    {
        self.compare_series(CmpOp::Lt, other, "_lt_series")
    }

    /// Elementwise equality of two columns.
    pub fn eq_series(&self, other: &Series) -> (r: AxionResult<Series>)
        requires
            self.wf(),
            other.wf(),
            self@.dtype == other@.dtype,
        ensures
            r is Ok <==> self@.cells.len() == other@.cells.len(),
            r matches Ok(s) ==> s@.name == self@.name + "_eq_series"@ && s@.cells
                == cmp_series_model(self@.cells, other@.cells, CmpOp::Eq) && s@.dtype
                == DataType::Bool && s.wf(),
            r matches Err(e) ==> e matches AxionError::MismatchedLengths { expected, found, name }
                && expected == self@.cells.len() && found == other@.cells.len() && name@
                == other@.name,
    {
        self.compare_series(CmpOp::Eq, other, "_eq_series")
    }

    /// Elementwise inequality of two columns.
    pub fn neq_series(&self, other: &Series) -> (r: AxionResult<Series>)
        requires
            self.wf(),
            other.wf(),
            self@.dtype == other@.dtype,
        ensures
            r is Ok <==> self@.cells.len() == other@.cells.len(),
            r matches Ok(s) ==> s@.name == self@.name + "_neq_series"@ && s@.cells
                == cmp_series_model(self@.cells, other@.cells, CmpOp::Neq) && s@.dtype
                == DataType::Bool && s.wf(),
            r matches Err(e) ==> e matches AxionError::MismatchedLengths { expected, found, name }
                && expected == self@.cells.len() && found == other@.cells.len() && name@
                == other@.name,
    {
        self.compare_series(CmpOp::Neq, other, "_neq_series")
    }

    /// Elementwise greater-or-equal of two columns.
    pub fn gte_series(&self, other: &Series) -> (r: AxionResult<Series>)
        requires
            self.wf(),
            other.wf(),
            self@.dtype == other@.dtype,
        ensures
            r is Ok <==> self@.cells.len() == other@.cells.len(),
            r matches Ok(s) ==> s@.name == self@.name + "_gte_series"@ && s@.cells
                == cmp_series_model(self@.cells, other@.cells, CmpOp::Gte) && s@.dtype
                == DataType::Bool && s.wf(),
            r matches Err(e) ==> e matches AxionError::MismatchedLengths { expected, found, name }
                && expected == self@.cells.len() && found == other@.cells.len() && name@
                == other@.name,
    {
        self.compare_series(CmpOp::Gte, other, "_gte_series")
    }

    /// Elementwise less-or-equal of two columns.
    pub fn lte_series(&self, other: &Series) -> (r: AxionResult<Series>)
        requires
            self.wf(),
            other.wf(),
            self@.dtype == other@.dtype,
        ensures
            r is Ok <==> self@.cells.len() == other@.cells.len(),
            r matches Ok(s) ==> s@.name == self@.name + "_lte_series"@ && s@.cells
                == cmp_series_model(self@.cells, other@.cells, CmpOp::Lte) && s@.dtype
                == DataType::Bool && s.wf(),
            r matches Err(e) ==> e matches AxionError::MismatchedLengths { expected, found, name }
                && expected == self@.cells.len() && found == other@.cells.len() && name@
                == other@.name,
    {
        self.compare_series(CmpOp::Lte, other, "_lte_series")
    }
}

/// The integer behind a numeric cell value; zero for anything else.
pub open spec fn sv_int(v: ScalarV) -> int {
    match v {
        ScalarV::Int8(x) => x as int,
        ScalarV::Int16(x) => x as int,
        ScalarV::Int32(x) => x as int,
        ScalarV::Int64(x) => x as int,
        ScalarV::UInt8(x) => x as int,
        ScalarV::UInt16(x) => x as int,
        ScalarV::UInt32(x) => x as int,
        ScalarV::UInt64(x) => x as int,
        _ => 0,
    }
}

/// Whether a cell value is an integer.
pub open spec fn sv_is_int(v: ScalarV) -> bool {
    match v {
        ScalarV::Int8(_) => true,
        ScalarV::Int16(_) => true,
        ScalarV::Int32(_) => true,
        ScalarV::Int64(_) => true,
        ScalarV::UInt8(_) => true,
        ScalarV::UInt16(_) => true,
        ScalarV::UInt32(_) => true,
        ScalarV::UInt64(_) => true,
        _ => false,
    }
}

/// The mathematical sum of the present integer values among the first
/// `t` cells; `None` when there is none.
pub open spec fn ser_sum(cells: Seq<Option<ScalarV>>, t: int) -> Option<int>
    decreases t,
{
    if t <= 0 {
        None
    } else {
        let rest = ser_sum(cells, t - 1);
        match cells[t - 1] {
            Some(v) => if sv_is_int(v) {
                Some(
                    (match rest {
                        Some(s) => s,
                        None => 0,
                    }) + sv_int(v),
                )
            } else {
                rest
            },
            None => rest,
        }
    }
}

/// Whether an integer lies in the value range of an integer kind.
pub open spec fn kind_in_range(dt: DataType, v: int) -> bool {
    match dt {
        DataType::Int8 => i8::MIN <= v <= i8::MAX,
        DataType::Int16 => i16::MIN <= v <= i16::MAX,
        DataType::Int32 => i32::MIN <= v <= i32::MAX,
        DataType::Int64 => i64::MIN <= v <= i64::MAX,
        DataType::UInt8 => 0 <= v <= u8::MAX,
        DataType::UInt16 => 0 <= v <= u16::MAX,
        DataType::UInt32 => 0 <= v <= u32::MAX,
        DataType::UInt64 => 0 <= v <= u64::MAX,
        _ => false,
    }
}

/// The cell value of an integer kind holding the given integer.
pub open spec fn int_to_sv(dt: DataType, v: int) -> ScalarV {
    match dt {
        DataType::Int8 => ScalarV::Int8(v as i8),
        DataType::Int16 => ScalarV::Int16(v as i16),
        DataType::Int32 => ScalarV::Int32(v as i32),
        DataType::Int64 => ScalarV::Int64(v as i64),
        DataType::UInt8 => ScalarV::UInt8(v as u8),
        DataType::UInt16 => ScalarV::UInt16(v as u16),
        DataType::UInt32 => ScalarV::UInt32(v as u32),
        DataType::UInt64 => ScalarV::UInt64(v as u64),
        _ => ScalarV::Bool(false),
    }
}

/// The least (or greatest) present value among the first `t` cells,
/// earlier cells winning ties; missing cells are skipped.
pub open spec fn ser_extreme(cells: Seq<Option<ScalarV>>, t: int, find_min: bool) -> Option<
    ScalarV,
>
    decreases t,
{
    if t <= 0 {
        None
    } else {
        let rest = ser_extreme(cells, t - 1, find_min);
        match cells[t - 1] {
            None => rest,
            Some(v) => match rest {
                None => Some(v),
                Some(cur) => if (if find_min {
                    sv_cmp(v, cur) == Ordering::Less
                } else {
                    sv_cmp(v, cur) == Ordering::Greater
                }) {
                    Some(v)
                } else {
                    Some(cur)
                },
            },
        }
    }
}

impl Series {
    /// The sum of the present values of an integer column: `None` when
    /// every cell is missing or the column is empty, never zero. Every
    /// partial sum must stay in the kind's range.
    pub fn sum(&self) -> (r: Option<Scalar>)
        requires
            self.wf(),
            forall|t: int|
                0 <= t <= self@.cells.len() ==> (#[trigger] ser_sum(self@.cells, t) matches Some(s)
                    ==> kind_in_range(self@.dtype, s)),
        ensures
            r.deep_view() == (match ser_sum(self@.cells, self@.cells.len() as int) {
                Some(s) => Some(int_to_sv(self@.dtype, s)),
                None => None,
            }),
    {
        let n = self.data.len();
        let mut cur: i128 = 0;
        let mut present = false;
        let mut i: usize = 0;
        while i < n
            invariant
                0 <= i <= n,
                n == self@.cells.len(),
                self.wf(),
                forall|t: int|
                    0 <= t <= self@.cells.len() ==> (#[trigger] ser_sum(self@.cells, t) matches Some(s)
                        ==> kind_in_range(self@.dtype, s)),
                present <==> ser_sum(self@.cells, i as int) is Some,
                present ==> ser_sum(self@.cells, i as int) == Some(cur as int),
                !present ==> cur == 0,
                kind_in_range(self@.dtype, cur as int) || cur == 0,
            decreases n - i,
        {
            proof {
                assert(self.data.deep_view()[i as int] == self.data@[i as int].deep_view());
            }
            let add: Option<i128> = match &self.data[i] {
                Some(Scalar::Int8(x)) => Some(*x as i128),
                Some(Scalar::Int16(x)) => Some(*x as i128),
                Some(Scalar::Int32(x)) => Some(*x as i128),
                Some(Scalar::Int64(x)) => Some(*x as i128),
                Some(Scalar::UInt8(x)) => Some(*x as i128),
                Some(Scalar::UInt16(x)) => Some(*x as i128),
                Some(Scalar::UInt32(x)) => Some(*x as i128),
                Some(Scalar::UInt64(x)) => Some(*x as i128),
                _ => None,
            };
            match add {
                Some(v) => {
                    proof {
                        assert(ser_sum(self@.cells, i as int + 1) == Some(cur as int + v as int));
                        assert(kind_in_range(self@.dtype, cur as int + v as int));
                    }
                    cur = cur + v;
                    present = true;
                },
                None => {
                    proof {
                        assert(ser_sum(self@.cells, i as int + 1) == ser_sum(
                            self@.cells,
                            i as int,
                        ));
                    }
                },
            }
            i = i + 1;
        }
        if !present {
            return None;
        }
        proof {
            assert(kind_in_range(self@.dtype, cur as int));
        }
        match &self.dtype {
            DataType::Int8 => Some(Scalar::Int8(cur as i8)),
            DataType::Int16 => Some(Scalar::Int16(cur as i16)),
            DataType::Int32 => Some(Scalar::Int32(cur as i32)),
            DataType::Int64 => Some(Scalar::Int64(cur as i64)),
            DataType::UInt8 => Some(Scalar::UInt8(cur as u8)),
            DataType::UInt16 => Some(Scalar::UInt16(cur as u16)),
            DataType::UInt32 => Some(Scalar::UInt32(cur as u32)),
            DataType::UInt64 => Some(Scalar::UInt64(cur as u64)),
            _ => {
                proof {
                    assert(false);
                }
                None
            },
        }
    }

    /// The least present value: `None` only when every cell is missing
    /// or the column is empty.
    pub fn min(&self) -> (r: Option<Scalar>)
        requires
            self.wf(),
        ensures
            r.deep_view() == ser_extreme(self@.cells, self@.cells.len() as int, true),
    {
        self.extreme(true)
    }

    /// The greatest present value: `None` only when every cell is
    /// missing or the column is empty.
    pub fn max(&self) -> (r: Option<Scalar>)
        requires
            self.wf(),
        ensures
            r.deep_view() == ser_extreme(self@.cells, self@.cells.len() as int, false),
    {
        self.extreme(false)
    }

    /// The shared scan of `min` and `max`.
    fn extreme(&self, find_min: bool) -> (r: Option<Scalar>)
        requires
            self.wf(),
        ensures
            r.deep_view() == ser_extreme(self@.cells, self@.cells.len() as int, find_min),
    {
        let n = self.data.len();
        let mut cur: Option<Scalar> = None;
        let mut i: usize = 0;
        while i < n
            invariant
                0 <= i <= n,
                n == self@.cells.len(),
                self.wf(),
                cur.deep_view() == ser_extreme(self@.cells, i as int, find_min),
            decreases n - i,
        {
            proof {
                assert(self.data.deep_view()[i as int] == self.data@[i as int].deep_view());
            }
            match &self.data[i] {
                None => {},
                Some(v) => {
                    let replace = match &cur {
                        None => true,
                        Some(c) => {
                            let o = scalar_cmp(v, c);
                            if find_min {
                                matches!(o, Ordering::Less)
                            } else {
                                matches!(o, Ordering::Greater)
                            }
                        },
                    };
                    if replace {
                        cur = Some(v.clone());
                    }
                },
            }
            i = i + 1;
        }
        cur
    }
}

} // verus!
