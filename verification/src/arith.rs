//! Elementwise arithmetic and comparison over columns: scalar and
//! column-to-column forms. Either operand missing makes the result cell
//! missing. A zero scalar divisor yields an all-missing result; a zero
//! entry inside a column divisor is excluded up front, as the operation
//! would otherwise fault.

use vstd::prelude::*;
use core::cmp::Ordering;
use crate::dtype::DataType;
use crate::error::{AxionError, AxionResult};
use crate::scalar::{
    Scalar, ScalarV, sv_kind, sv_cmp, scalar_cmp, scalar_is_zero, sv_is_zero, clone_cell,
};
use crate::series::{Series, SeriesFlags, SeriesV, cell_ok};

verus! {

/// One of the five elementwise arithmetic operators.
#[derive(Debug, Clone, Copy, PartialEq, Eq)]
pub enum ArithOp {
    Add,
    Sub,
    Mul,
    Div,
    Rem,
}

/// One of the six elementwise comparison operators.
#[derive(Debug, Clone, Copy, PartialEq, Eq)]
pub enum CmpOp {
    Gt,
    Lt,
    Eq,
    Neq,
    Gte,
    Lte,
}

pub open spec fn wrap_i8(o: Option<i8>) -> Option<ScalarV> {
    match o {
        Some(v) => Some(ScalarV::Int8(v)),
        None => None,
    }
}

pub open spec fn wrap_i16(o: Option<i16>) -> Option<ScalarV> {
    match o {
        Some(v) => Some(ScalarV::Int16(v)),
        None => None,
    }
}

pub open spec fn wrap_i32(o: Option<i32>) -> Option<ScalarV> {
    match o {
        Some(v) => Some(ScalarV::Int32(v)),
        None => None,
    }
}

pub open spec fn wrap_i64(o: Option<i64>) -> Option<ScalarV> {
    match o {
        Some(v) => Some(ScalarV::Int64(v)),
        None => None,
    }
}

pub open spec fn wrap_u8(o: Option<u8>) -> Option<ScalarV> {
    match o {
        Some(v) => Some(ScalarV::UInt8(v)),
        None => None,
    }
}

pub open spec fn wrap_u16(o: Option<u16>) -> Option<ScalarV> {
    match o {
        Some(v) => Some(ScalarV::UInt16(v)),
        None => None,
    }
}

pub open spec fn wrap_u32(o: Option<u32>) -> Option<ScalarV> {
    match o {
        Some(v) => Some(ScalarV::UInt32(v)),
        None => None,
    }
}

pub open spec fn wrap_u64(o: Option<u64>) -> Option<ScalarV> {
    match o {
        Some(v) => Some(ScalarV::UInt64(v)),
        None => None,
    }
}

/// The outcome of one arithmetic operator on two present values: the
/// checked result for two numbers of one kind, and nothing at all — the
/// operation is undefined — for unlike or non-numeric operands, for
/// division or remainder by zero, and for a result out of the kind's
/// range.
pub open spec fn sv_arith(op: ArithOp, a: ScalarV, b: ScalarV) -> Option<ScalarV> {
    match (a, b) {
        (ScalarV::Int8(x), ScalarV::Int8(y)) => wrap_i8(
            match op {
                ArithOp::Add => x.checked_add(y),
                ArithOp::Sub => x.checked_sub(y),
                ArithOp::Mul => x.checked_mul(y),
                ArithOp::Div => x.checked_div(y),
                ArithOp::Rem => x.checked_rem(y),
            },
        ),
        (ScalarV::Int16(x), ScalarV::Int16(y)) => wrap_i16(
            match op {
                ArithOp::Add => x.checked_add(y),
                ArithOp::Sub => x.checked_sub(y),
                ArithOp::Mul => x.checked_mul(y),
                ArithOp::Div => x.checked_div(y),
                ArithOp::Rem => x.checked_rem(y),
            },
        ),
        (ScalarV::Int32(x), ScalarV::Int32(y)) => wrap_i32(
            match op {
                ArithOp::Add => x.checked_add(y),
                ArithOp::Sub => x.checked_sub(y),
                ArithOp::Mul => x.checked_mul(y),
                ArithOp::Div => x.checked_div(y),
                ArithOp::Rem => x.checked_rem(y),
            },
        ),
        (ScalarV::Int64(x), ScalarV::Int64(y)) => wrap_i64(
            match op {
                ArithOp::Add => x.checked_add(y),
                ArithOp::Sub => x.checked_sub(y),
                ArithOp::Mul => x.checked_mul(y),
                ArithOp::Div => x.checked_div(y),
                ArithOp::Rem => x.checked_rem(y),
            },
        ),
        (ScalarV::UInt8(x), ScalarV::UInt8(y)) => wrap_u8(
            match op {
                ArithOp::Add => x.checked_add(y),
                ArithOp::Sub => x.checked_sub(y),
                ArithOp::Mul => x.checked_mul(y),
                ArithOp::Div => x.checked_div(y),
                ArithOp::Rem => x.checked_rem(y),
            },
        ),
        (ScalarV::UInt16(x), ScalarV::UInt16(y)) => wrap_u16(
            match op {
                ArithOp::Add => x.checked_add(y),
                ArithOp::Sub => x.checked_sub(y),
                ArithOp::Mul => x.checked_mul(y),
                ArithOp::Div => x.checked_div(y),
                ArithOp::Rem => x.checked_rem(y),
            },
        ),
        (ScalarV::UInt32(x), ScalarV::UInt32(y)) => wrap_u32(
            match op {
                ArithOp::Add => x.checked_add(y),
                ArithOp::Sub => x.checked_sub(y),
                ArithOp::Mul => x.checked_mul(y),
                ArithOp::Div => x.checked_div(y),
                ArithOp::Rem => x.checked_rem(y),
            },
        ),
        (ScalarV::UInt64(x), ScalarV::UInt64(y)) => wrap_u64(
            match op {
                ArithOp::Add => x.checked_add(y),
                ArithOp::Sub => x.checked_sub(y),
                ArithOp::Mul => x.checked_mul(y),
                ArithOp::Div => x.checked_div(y),
                ArithOp::Rem => x.checked_rem(y),
            },
        ),
        _ => None,
    }
}

/// The outcome of one arithmetic operator, executable form.
pub fn scalar_arith(op: ArithOp, a: &Scalar, b: &Scalar) -> (r: Option<Scalar>)
    ensures
        r.deep_view() == sv_arith(op, a.deep_view(), b.deep_view()),
{
    match (a, b) {
        (Scalar::Int8(x), Scalar::Int8(y)) => match (match op {
            ArithOp::Add => x.checked_add(*y),
            ArithOp::Sub => x.checked_sub(*y),
            ArithOp::Mul => x.checked_mul(*y),
            ArithOp::Div => x.checked_div(*y),
            ArithOp::Rem => x.checked_rem(*y),
        }) {
            Some(v) => Some(Scalar::Int8(v)),
            None => None,
        },
        (Scalar::Int16(x), Scalar::Int16(y)) => match (match op {
            ArithOp::Add => x.checked_add(*y),
            ArithOp::Sub => x.checked_sub(*y),
            ArithOp::Mul => x.checked_mul(*y),
            ArithOp::Div => x.checked_div(*y),
            ArithOp::Rem => x.checked_rem(*y),
        }) {
            Some(v) => Some(Scalar::Int16(v)),
            None => None,
        },
        (Scalar::Int32(x), Scalar::Int32(y)) => match (match op {
            ArithOp::Add => x.checked_add(*y),
            ArithOp::Sub => x.checked_sub(*y),
            ArithOp::Mul => x.checked_mul(*y),
            ArithOp::Div => x.checked_div(*y),
            ArithOp::Rem => x.checked_rem(*y),
        }) {
            Some(v) => Some(Scalar::Int32(v)),
            None => None,
        },
        (Scalar::Int64(x), Scalar::Int64(y)) => match (match op {
            ArithOp::Add => x.checked_add(*y),
            ArithOp::Sub => x.checked_sub(*y),
            ArithOp::Mul => x.checked_mul(*y),
            ArithOp::Div => x.checked_div(*y),
            ArithOp::Rem => x.checked_rem(*y),
        }) {
            Some(v) => Some(Scalar::Int64(v)),
            None => None,
        },
        (Scalar::UInt8(x), Scalar::UInt8(y)) => match (match op {
            ArithOp::Add => x.checked_add(*y),
            ArithOp::Sub => x.checked_sub(*y),
            ArithOp::Mul => x.checked_mul(*y),
            ArithOp::Div => x.checked_div(*y),
            ArithOp::Rem => x.checked_rem(*y),
        }) {
            Some(v) => Some(Scalar::UInt8(v)),
            None => None,
        },
        (Scalar::UInt16(x), Scalar::UInt16(y)) => match (match op {
            ArithOp::Add => x.checked_add(*y),
            ArithOp::Sub => x.checked_sub(*y),
            ArithOp::Mul => x.checked_mul(*y),
            ArithOp::Div => x.checked_div(*y),
            ArithOp::Rem => x.checked_rem(*y),
        }) {
            Some(v) => Some(Scalar::UInt16(v)),
            None => None,
        },
        (Scalar::UInt32(x), Scalar::UInt32(y)) => match (match op {
            ArithOp::Add => x.checked_add(*y),
            ArithOp::Sub => x.checked_sub(*y),
            ArithOp::Mul => x.checked_mul(*y),
            ArithOp::Div => x.checked_div(*y),
            ArithOp::Rem => x.checked_rem(*y),
        }) {
            Some(v) => Some(Scalar::UInt32(v)),
            None => None,
        },
        (Scalar::UInt64(x), Scalar::UInt64(y)) => match (match op {
            ArithOp::Add => x.checked_add(*y),
            ArithOp::Sub => x.checked_sub(*y),
            ArithOp::Mul => x.checked_mul(*y),
            ArithOp::Div => x.checked_div(*y),
            ArithOp::Rem => x.checked_rem(*y),
        }) {
            Some(v) => Some(Scalar::UInt64(v)),
            None => None,
        },
        _ => None,
    }
}

/// The outcome of one comparison operator on two present values of one
/// kind.
pub open spec fn sv_compare(op: CmpOp, a: ScalarV, b: ScalarV) -> bool {
    match op {
        CmpOp::Gt => sv_cmp(a, b) == Ordering::Greater,
        CmpOp::Lt => sv_cmp(a, b) == Ordering::Less,
        CmpOp::Eq => sv_cmp(a, b) == Ordering::Equal,
        CmpOp::Neq => sv_cmp(a, b) != Ordering::Equal,
        CmpOp::Gte => sv_cmp(a, b) != Ordering::Less,
        CmpOp::Lte => sv_cmp(a, b) != Ordering::Greater,
    }
}

/// The outcome of one comparison operator, executable form.
pub fn scalar_compare(op: CmpOp, a: &Scalar, b: &Scalar) -> (r: bool)
    ensures
        r == sv_compare(op, a.deep_view(), b.deep_view()),
{
    let o = scalar_cmp(a, b);
    match op {
        CmpOp::Gt => matches!(o, Ordering::Greater),
        CmpOp::Lt => matches!(o, Ordering::Less),
        CmpOp::Eq => matches!(o, Ordering::Equal),
        CmpOp::Neq => !matches!(o, Ordering::Equal),
        CmpOp::Gte => !matches!(o, Ordering::Less),
        CmpOp::Lte => !matches!(o, Ordering::Greater),
    }
}

/// The cells of a scalar arithmetic result: the operation applied where
/// a value is present, a missing cell propagated.
pub open spec fn arith_scalar_model(
    cells: Seq<Option<ScalarV>>,
    op: ArithOp,
    rhs: ScalarV,
) -> Seq<Option<ScalarV>> {
    Seq::new(
        cells.len(),
        |i: int|
            match cells[i] {
                Some(v) => sv_arith(op, v, rhs),
                None => None,
            },
    )
}

/// The cells of a column-to-column arithmetic result: the operation
/// applied where both cells are present, a missing cell propagated.
pub open spec fn arith_series_model(
    a: Seq<Option<ScalarV>>,
    b: Seq<Option<ScalarV>>,
    op: ArithOp,
) -> Seq<Option<ScalarV>> {
    Seq::new(
        a.len(),
        |i: int|
            match (a[i], b[i]) {
                (Some(x), Some(y)) => sv_arith(op, x, y),
                _ => None,
            },
    )
}

/// The cells of a scalar comparison result.
pub open spec fn cmp_scalar_model(cells: Seq<Option<ScalarV>>, op: CmpOp, rhs: ScalarV) -> Seq<
    Option<ScalarV>,
> {
    Seq::new(
        cells.len(),
        |i: int|
            match cells[i] {
                Some(v) => Some(ScalarV::Bool(sv_compare(op, v, rhs))),
                None => None,
            },
    )
}

/// The cells of a column-to-column comparison result.
pub open spec fn cmp_series_model(
    a: Seq<Option<ScalarV>>,
    b: Seq<Option<ScalarV>>,
    op: CmpOp,
) -> Seq<Option<ScalarV>> {
    Seq::new(
        a.len(),
        |i: int|
            match (a[i], b[i]) {
                (Some(x), Some(y)) => Some(ScalarV::Bool(sv_compare(op, x, y))),
                _ => None,
            },
    )
}

/// Every present cell survives the operation: the operands share one
/// numeric kind, no sum, difference or product leaves the kind's range,
/// and no divisor is zero.
pub open spec fn arith_scalar_defined(cells: Seq<Option<ScalarV>>, op: ArithOp, rhs: ScalarV) -> bool {
    forall|i: int|
        0 <= i < cells.len() ==> (#[trigger] cells[i] matches Some(v) ==> sv_arith(op, v, rhs)
            is Some)
}

/// The column-to-column form of `arith_scalar_defined`.
pub open spec fn arith_series_defined(
    a: Seq<Option<ScalarV>>,
    b: Seq<Option<ScalarV>>,
    op: ArithOp,
) -> bool {
    forall|i: int|
        0 <= i < a.len() ==> ((#[trigger] a[i]) matches Some(x) && b[i] matches Some(y)
            ==> sv_arith(op, x, y) is Some)
}

impl Series {
    /// Applies one arithmetic operator against a scalar, elementwise;
    /// shared by the five public scalar forms.
    fn arith_scalar(&self, op: ArithOp, rhs: &Scalar, suffix: &str) -> (r: Series)
        requires
            self.wf(),
            arith_scalar_defined(self@.cells, op, rhs.deep_view()),
        ensures
            r@.name == self@.name + suffix@,
            r@.dtype == self@.dtype,
            r@.cells == arith_scalar_model(self@.cells, op, rhs.deep_view()),
            r.wf(),
    {
        let n = self.data.len();
        let mut out: Vec<Option<Scalar>> = Vec::new();
        let mut i: usize = 0;
        while i < n
            invariant
                0 <= i <= n,
                n == self@.cells.len(),
                self.wf(),
                arith_scalar_defined(self@.cells, op, rhs.deep_view()),
                out@.len() == i,
                forall|k: int|
                    0 <= k < i ==> (#[trigger] out@[k]).deep_view() == (match self@.cells[k] {
                        Some(v) => sv_arith(op, v, rhs.deep_view()),
                        None => None,
                    }),
            decreases n - i,
        {
            proof {
                assert(self.data.deep_view()[i as int] == self.data@[i as int].deep_view());
            }
            let cell = match &self.data[i] {
                Some(v) => scalar_arith(op, v, rhs),
                None => None,
            };
            out.push(cell);
            i = i + 1;
        }
        let name = self.name.clone().concat(suffix);
        let r = Series { name, dtype: self.dtype.clone(), data: out, flags: SeriesFlags::new() };
        proof {
            assert(r@.cells =~= arith_scalar_model(self@.cells, op, rhs.deep_view()));
            assert forall|k: int| 0 <= k < r@.cells.len() implies cell_ok(
                #[trigger] r@.cells[k],
                r@.dtype,
            ) by {
                assert(cell_ok(self@.cells[k], self@.dtype));
                if self@.cells[k] is Some && r@.cells[k] is Some {
                    let v = self@.cells[k]->0;
                    let w = r@.cells[k]->0;
                    assert(sv_arith(op, v, rhs.deep_view()) == Some(w));
                    assert(sv_kind(w) == sv_kind(v));
                }
            }
        }
        r
    }

    /// Applies one comparison operator against a scalar, elementwise.
    fn compare_scalar(&self, op: CmpOp, rhs: &Scalar, suffix: &str) -> (r: Series)
        requires
            self.wf(),
        ensures
            r@.name == self@.name + suffix@,
            r@.dtype == DataType::Bool,
            r@.cells == cmp_scalar_model(self@.cells, op, rhs.deep_view()),
            r.wf(),
    {
        let n = self.data.len();
        let mut out: Vec<Option<Scalar>> = Vec::new();
        let mut i: usize = 0;
        while i < n
            invariant
                0 <= i <= n,
                n == self@.cells.len(),
                self.wf(),
                out@.len() == i,
                forall|k: int|
                    0 <= k < i ==> (#[trigger] out@[k]).deep_view() == (match self@.cells[k] {
                        Some(v) => Some(ScalarV::Bool(sv_compare(op, v, rhs.deep_view()))),
                        None => None,
                    }),
            decreases n - i,
        {
            proof {
                assert(self.data.deep_view()[i as int] == self.data@[i as int].deep_view());
            }
            let cell = match &self.data[i] {
                Some(v) => Some(Scalar::Bool(scalar_compare(op, v, rhs))),
                None => None,
            };
            out.push(cell);
            i = i + 1;
        }
        let name = self.name.clone().concat(suffix);
        let r = Series { name, dtype: DataType::Bool, data: out, flags: SeriesFlags::new() };
        proof {
            assert(r@.cells =~= cmp_scalar_model(self@.cells, op, rhs.deep_view()));
        }
        r
    }

    /// Elementwise sum with a scalar; overflow is excluded up front.
    pub fn add_scalar(&self, rhs: &Scalar) -> (r: AxionResult<Series>)
        requires
            self.wf(),
            arith_scalar_defined(self@.cells, ArithOp::Add, rhs.deep_view()),
        ensures
            r matches Ok(s) && s@.name == self@.name + "_add_scalar"@ && s@.dtype == self@.dtype
                && s@.cells == arith_scalar_model(self@.cells, ArithOp::Add, rhs.deep_view())
                && s.wf(),
    {
        Ok(self.arith_scalar(ArithOp::Add, rhs, "_add_scalar"))
    }

    /// Elementwise difference with a scalar; overflow is excluded up
    /// front.
    pub fn sub_scalar(&self, rhs: &Scalar) -> (r: AxionResult<Series>)
        requires
            self.wf(),
            arith_scalar_defined(self@.cells, ArithOp::Sub, rhs.deep_view()),
        ensures
            r matches Ok(s) && s@.name == self@.name + "_sub_scalar"@ && s@.dtype == self@.dtype
                && s@.cells == arith_scalar_model(self@.cells, ArithOp::Sub, rhs.deep_view())
                && s.wf(),
    {
        Ok(self.arith_scalar(ArithOp::Sub, rhs, "_sub_scalar"))
    }

    /// Elementwise product with a scalar; overflow is excluded up front.
    pub fn mul_scalar(&self, rhs: &Scalar) -> (r: AxionResult<Series>)
        requires
            self.wf(),
            arith_scalar_defined(self@.cells, ArithOp::Mul, rhs.deep_view()),
        ensures
            r matches Ok(s) && s@.name == self@.name + "_mul_scalar"@ && s@.dtype == self@.dtype
                && s@.cells == arith_scalar_model(self@.cells, ArithOp::Mul, rhs.deep_view())
                && s.wf(),
    {
        Ok(self.arith_scalar(ArithOp::Mul, rhs, "_mul_scalar"))
    }

    /// Elementwise quotient with a scalar. A zero divisor is not a
    /// fault: it yields an all-missing column.
    pub fn div_scalar(&self, rhs: &Scalar) -> (r: AxionResult<Series>)
        requires
            self.wf(),
            !sv_is_zero(rhs.deep_view()) ==> arith_scalar_defined(
                self@.cells,
                ArithOp::Div,
                rhs.deep_view(),
            ),
        ensures
            r matches Ok(s) && s@.dtype == self@.dtype && s.wf() && (if sv_is_zero(
                rhs.deep_view(),
            ) {
                s@.name == self@.name + "_div_scalar_by_zero"@ && s@.cells.len()
                    == self@.cells.len() && (forall|i: int|
                    0 <= i < s@.cells.len() ==> (#[trigger] s@.cells[i]) is None)
            } else {
                s@.name == self@.name + "_div_scalar"@ && s@.cells == arith_scalar_model(
                    self@.cells,
                    ArithOp::Div,
                    rhs.deep_view(),
                )
            }),
    {
        if scalar_is_zero(rhs) {
            let n = self.data.len();
            let mut out: Vec<Option<Scalar>> = Vec::new();
            let mut i: usize = 0;
            while i < n
                invariant
                    0 <= i <= n,
                    out@.len() == i,
                    forall|k: int| 0 <= k < i ==> (#[trigger] out@[k]) is None,
                decreases n - i,
            {
                out.push(None);
                i = i + 1;
            }
            let name = self.name.clone().concat("_div_scalar_by_zero");
            let r = Series {
                name,
                dtype: self.dtype.clone(),
                data: out,
                flags: SeriesFlags::new(),
            };
            proof {
                assert forall|i: int| 0 <= i < r@.cells.len() implies (#[trigger] r@.cells[i])
                    is None by {
                    assert(r@.cells[i] == out@[i].deep_view());
                }
            }
            Ok(r)
        } else {
            Ok(self.arith_scalar(ArithOp::Div, rhs, "_div_scalar"))
        }
    }

    /// Elementwise remainder with a scalar. A zero divisor is not a
    /// fault: it yields an all-missing column.
    pub fn rem_scalar(&self, rhs: &Scalar) -> (r: AxionResult<Series>)
        requires
            self.wf(),
            !sv_is_zero(rhs.deep_view()) ==> arith_scalar_defined(
                self@.cells,
                ArithOp::Rem,
                rhs.deep_view(),
            ),
        ensures
            r matches Ok(s) && s@.dtype == self@.dtype && s.wf() && (if sv_is_zero(
                rhs.deep_view(),
            ) {
                s@.name == self@.name + "_rem_scalar_by_zero"@ && s@.cells.len()
                    == self@.cells.len() && (forall|i: int|
                    0 <= i < s@.cells.len() ==> (#[trigger] s@.cells[i]) is None)
            } else {
                s@.name == self@.name + "_rem_scalar"@ && s@.cells == arith_scalar_model(
                    self@.cells,
                    ArithOp::Rem,
                    rhs.deep_view(),
                )
            }),
    {
        if scalar_is_zero(rhs) {
            let n = self.data.len();
            let mut out: Vec<Option<Scalar>> = Vec::new();
            let mut i: usize = 0;
            while i < n
                invariant
                    0 <= i <= n,
                    out@.len() == i,
                    forall|k: int| 0 <= k < i ==> (#[trigger] out@[k]) is None,
                decreases n - i,
            {
                out.push(None);
                i = i + 1;
            }
            let name = self.name.clone().concat("_rem_scalar_by_zero");
            let r = Series {
                name,
                dtype: self.dtype.clone(),
                data: out,
                flags: SeriesFlags::new(),
            };
            proof {
                assert forall|i: int| 0 <= i < r@.cells.len() implies (#[trigger] r@.cells[i])
                    is None by {
                    assert(r@.cells[i] == out@[i].deep_view());
                }
            }
            Ok(r)
        } else {
            Ok(self.arith_scalar(ArithOp::Rem, rhs, "_rem_scalar"))
        }
    }

    /// Elementwise greater-than against a scalar.
    pub fn gt_scalar(&self, rhs: &Scalar) -> (r: AxionResult<Series>)
        requires
            self.wf(),
        ensures
            r matches Ok(s) && s@.name == self@.name + "_gt_scalar"@ && s@.dtype == DataType::Bool
                && s@.cells == cmp_scalar_model(self@.cells, CmpOp::Gt, rhs.deep_view()) && s.wf(),
    {
        Ok(self.compare_scalar(CmpOp::Gt, rhs, "_gt_scalar"))
    }

    /// Elementwise less-than against a scalar.
    pub fn lt_scalar(&self, rhs: &Scalar) -> (r: AxionResult<Series>)
        requires
            self.wf(),
        ensures
            r matches Ok(s) && s@.name == self@.name + "_lt_scalar"@ && s@.dtype == DataType::Bool
                && s@.cells == cmp_scalar_model(self@.cells, CmpOp::Lt, rhs.deep_view()) && s.wf(),
    {
        Ok(self.compare_scalar(CmpOp::Lt, rhs, "_lt_scalar"))
    }

    /// Elementwise equality against a scalar.
    pub fn eq_scalar(&self, rhs: &Scalar) -> (r: AxionResult<Series>)
        requires
            self.wf(),
        ensures
            r matches Ok(s) && s@.name == self@.name + "_eq_scalar"@ && s@.dtype == DataType::Bool
                && s@.cells == cmp_scalar_model(self@.cells, CmpOp::Eq, rhs.deep_view()) && s.wf(),
    {
        Ok(self.compare_scalar(CmpOp::Eq, rhs, "_eq_scalar"))
    }

    /// Elementwise inequality against a scalar.
    pub fn neq_scalar(&self, rhs: &Scalar) -> (r: AxionResult<Series>)
        requires
            self.wf(),
        ensures
            r matches Ok(s) && s@.name == self@.name + "_neq_scalar"@ && s@.dtype == DataType::Bool
                && s@.cells == cmp_scalar_model(self@.cells, CmpOp::Neq, rhs.deep_view())
                && s.wf(),
    {
        Ok(self.compare_scalar(CmpOp::Neq, rhs, "_neq_scalar"))
    }

    /// Elementwise greater-or-equal against a scalar.
    pub fn gte_scalar(&self, rhs: &Scalar) -> (r: AxionResult<Series>)
        requires
            self.wf(),
        ensures
            r matches Ok(s) && s@.name == self@.name + "_gte_scalar"@ && s@.dtype == DataType::Bool
                && s@.cells == cmp_scalar_model(self@.cells, CmpOp::Gte, rhs.deep_view())
                && s.wf(),
    {
        Ok(self.compare_scalar(CmpOp::Gte, rhs, "_gte_scalar"))
    }

    /// Elementwise less-or-equal against a scalar.
    pub fn lte_scalar(&self, rhs: &Scalar) -> (r: AxionResult<Series>)
        requires
            self.wf(),
        ensures
            r matches Ok(s) && s@.name == self@.name + "_lte_scalar"@ && s@.dtype == DataType::Bool
                && s@.cells == cmp_scalar_model(self@.cells, CmpOp::Lte, rhs.deep_view())
                && s.wf(),
    {
        Ok(self.compare_scalar(CmpOp::Lte, rhs, "_lte_scalar"))
    }

    /// The unified comparison forms, each the scalar comparison under
    /// its short name.
    pub fn gt(&self, rhs: &Scalar) -> (r: AxionResult<Series>)
        requires
            self.wf(),
        ensures
            r matches Ok(s) && s@.dtype == DataType::Bool && s@.cells == cmp_scalar_model(
                self@.cells,
                CmpOp::Gt,
                rhs.deep_view(),
            ) && s.wf(),
    {
        self.gt_scalar(rhs)
    }

    /// See `gt`.
    pub fn lt(&self, rhs: &Scalar) -> (r: AxionResult<Series>)
        requires
            self.wf(),
        ensures
            r matches Ok(s) && s@.dtype == DataType::Bool && s@.cells == cmp_scalar_model(
                self@.cells,
                CmpOp::Lt,
                rhs.deep_view(),
            ) && s.wf(),
    {
        self.lt_scalar(rhs)
    }

    /// See `gt`.
    pub fn eq(&self, rhs: &Scalar) -> (r: AxionResult<Series>)
        requires
            self.wf(),
        ensures
            r matches Ok(s) && s@.dtype == DataType::Bool && s@.cells == cmp_scalar_model(
                self@.cells,
                CmpOp::Eq,
                rhs.deep_view(),
            ) && s.wf(),
    {
        self.eq_scalar(rhs)
    }

    /// See `gt`.
    pub fn neq(&self, rhs: &Scalar) -> (r: AxionResult<Series>)
        requires
            self.wf(),
        ensures
            r matches Ok(s) && s@.dtype == DataType::Bool && s@.cells == cmp_scalar_model(
                self@.cells,
                CmpOp::Neq,
                rhs.deep_view(),
            ) && s.wf(),
    {
        self.neq_scalar(rhs)
    }

    /// See `gt`.
    pub fn gte(&self, rhs: &Scalar) -> (r: AxionResult<Series>)
        requires
            self.wf(),
        ensures
            r matches Ok(s) && s@.dtype == DataType::Bool && s@.cells == cmp_scalar_model(
                self@.cells,
                CmpOp::Gte,
                rhs.deep_view(),
            ) && s.wf(),
    {
        self.gte_scalar(rhs)
    }

    /// See `gt`.
    pub fn lte(&self, rhs: &Scalar) -> (r: AxionResult<Series>)
        requires
            self.wf(),
        ensures
            r matches Ok(s) && s@.dtype == DataType::Bool && s@.cells == cmp_scalar_model(
                self@.cells,
                CmpOp::Lte,
                rhs.deep_view(),
            ) && s.wf(),
    {
        self.lte_scalar(rhs)
    }
}

} // verus!
