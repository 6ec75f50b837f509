//! Row-level column operations: three-way row comparison with the null
//! policy, textual rendering, value equality, and the null utilities.

use vstd::prelude::*;
use core::cmp::Ordering;
use crate::dtype::{DataType, dtype_eq};
use crate::scalar::{Scalar, ScalarV, sv_kind, sv_cmp, scalar_cmp, cell_eq, is_true_cell};
use crate::series::{Series, SeriesFlags, SeriesV, cell_ok};
use crate::strutil::{
    dec_str, dec_str_signed, bool_str, i64_to_dec, u64_to_dec, bool_to_dec, str_eq,
};

verus! {

/// Three-way comparison of two cells under a null policy: a missing cell
/// sorts before every value when `nulls_first`, after every value
/// otherwise; two missing cells are `Equal`.
pub open spec fn cell_cmp(a: Option<ScalarV>, b: Option<ScalarV>, nulls_first: bool) -> Ordering {
    match (a, b) {
        (Some(x), Some(y)) => sv_cmp(x, y),
        (None, None) => Ordering::Equal,
        (None, Some(_)) => if nulls_first {
            Ordering::Less
        } else {
            Ordering::Greater
        },
        (Some(_), None) => if nulls_first {
            Ordering::Greater
        } else {
            Ordering::Less
        },
    }
}

/// Three-way comparison of two cells, executable form.
pub fn cell_cmp_exec(a: &Option<Scalar>, b: &Option<Scalar>, nulls_first: bool) -> (r: Ordering)
    ensures
        r == cell_cmp(a.deep_view(), b.deep_view(), nulls_first),
{
    match (a, b) {
        (Some(x), Some(y)) => scalar_cmp(x, y),
        (None, None) => Ordering::Equal,
        (None, Some(_)) => if nulls_first {
            Ordering::Less
        } else {
            Ordering::Greater
        },
        (Some(_), None) => if nulls_first {
            Ordering::Greater
        } else {
            Ordering::Less
        },
    }
}

/// The textual form of a present cell value, as `get_str` shows it.
pub open spec fn render_sv(v: ScalarV) -> Seq<char> {
    match v {
        ScalarV::Bool(b) => bool_str(b),
        ScalarV::Int8(x) => dec_str_signed(x as int),
        ScalarV::Int16(x) => dec_str_signed(x as int),
        ScalarV::Int32(x) => dec_str_signed(x as int),
        ScalarV::Int64(x) => dec_str_signed(x as int),
        ScalarV::UInt8(x) => dec_str(x as nat),
        ScalarV::UInt16(x) => dec_str(x as nat),
        ScalarV::UInt32(x) => dec_str(x as nat),
        ScalarV::UInt64(x) => dec_str(x as nat),
        ScalarV::Str(s) => s,
    }
}

/// The text shown for a missing cell.
pub open spec fn null_str() -> Seq<char> {
    seq!['n', 'u', 'l', 'l']
}

/// Renders one present cell value.
pub fn render_scalar(v: &Scalar) -> (r: String)
    ensures
        r@ == render_sv(v.deep_view()),
{
    match v {
        Scalar::Bool(b) => bool_to_dec(*b),
        Scalar::Int8(x) => i64_to_dec(*x as i64),
        Scalar::Int16(x) => i64_to_dec(*x as i64),
        Scalar::Int32(x) => i64_to_dec(*x as i64),
        Scalar::Int64(x) => i64_to_dec(*x),
        Scalar::UInt8(x) => u64_to_dec(*x as u64),
        Scalar::UInt16(x) => u64_to_dec(*x as u64),
        Scalar::UInt32(x) => u64_to_dec(*x as u64),
        Scalar::UInt64(x) => u64_to_dec(*x),
        Scalar::Str(s) => s.clone(),
    }
}

impl Series {
    /// Whether the cell at `index` is missing; an index past the end
    /// counts as missing.
    pub fn is_null_at(&self, index: usize) -> (r: bool)
        ensures
            r == (index >= self@.cells.len() || self@.cells[index as int] is None),
    {
        if index >= self.data.len() {
            return true;
        }
        proof {
            assert(self.data.deep_view()[index as int] == self.data@[index as int].deep_view());
        }
        match &self.data[index] {
            Some(_) => false,
            None => true,
        }
    }

    /// The textual form of the cell at `index`: the value's rendering, or
    /// `null` for a missing cell; `None` only past the end.
    pub fn get_str(&self, index: usize) -> (r: Option<String>)
        ensures
            r is None <==> index >= self@.cells.len(),
            r matches Some(s) ==> (match self@.cells[index as int] {
                Some(v) => s@ == render_sv(v),
                None => s@ == null_str(),
            }),
    {
        if index >= self.data.len() {
            return None;
        }
        proof {
            assert(self.data.deep_view()[index as int] == self.data@[index as int].deep_view());
        }
        match &self.data[index] {
            Some(v) => Some(render_scalar(v)),
            None => {
                proof {
                    reveal_strlit("null");
                }
                let s = String::from_str("null");
                proof {
                    assert(s@ =~= null_str());
                }
                Some(s)
            },
        }
    }

    /// Three-way ordering of the rows at `a_idx` and `b_idx`: a missing
    /// cell sorts after any value.
    pub fn compare_row(&self, a_idx: usize, b_idx: usize) -> (r: Ordering)
        requires
            a_idx < self@.cells.len(),
            b_idx < self@.cells.len(),
        ensures
            r == cell_cmp(self@.cells[a_idx as int], self@.cells[b_idx as int], false),
    {
        proof {
            assert(self.data.deep_view()[a_idx as int] == self.data@[a_idx as int].deep_view());
            assert(self.data.deep_view()[b_idx as int] == self.data@[b_idx as int].deep_view());
        }
        cell_cmp_exec(&self.data[a_idx], &self.data[b_idx], false)
    }

    /// Whether two columns hold the same values: same kind, same length,
    /// and cell for cell the same contents; names are not compared.
    pub fn series_equal(&self, other: &Series) -> (r: bool)
        ensures
            r == (self@.dtype == other@.dtype && self@.cells == other@.cells),
    {
        if !dtype_eq(&self.dtype, &other.dtype) {
            return false;
        }
        if self.data.len() != other.data.len() {
            proof {
                assert(self@.cells.len() != other@.cells.len());
            }
            return false;
        }
        let n = self.data.len();
        let mut i: usize = 0;
        while i < n
            invariant
                0 <= i <= n,
                n == self@.cells.len(),
                n == other@.cells.len(),
                forall|j: int| 0 <= j < i ==> self@.cells[j] == other@.cells[j],
            decreases n - i,
        {
            proof {
                assert(self.data.deep_view()[i as int] == self.data@[i as int].deep_view());
                assert(other.data.deep_view()[i as int] == other.data@[i as int].deep_view());
            }
            if !cell_eq(&self.data[i], &other.data[i]) {
                return false;
            }
            i = i + 1;
        }
        proof {
            assert(self@.cells =~= other@.cells);
        }
        true
    }

    /// Whether two columns are entirely the same: name, kind and cells.
    pub fn equals(&self, other: &Series) -> (r: bool)
        ensures
            r == (self@.name == other@.name && self@.dtype == other@.dtype && self@.cells
                == other@.cells),
    {
        if !str_eq(self.name.as_str(), other.name.as_str()) {
            return false;
        }
        self.series_equal(other)
    }

    /// The same comparison as `equals`: missing cells count as equal to
    /// missing cells.
    pub fn equals_missing(&self, other: &Series) -> (r: bool)
        ensures
            r == (self@.name == other@.name && self@.dtype == other@.dtype && self@.cells
                == other@.cells),
    {
        self.equals(other)
    }

    /// A boolean column marking each missing cell `true`.
    pub fn is_null(&self) -> (r: Series)
        ensures
            r@.name == self@.name + "_is_null"@,
            r@.dtype == DataType::Bool,
            r@.cells.len() == self@.cells.len(),
            forall|i: int|
                0 <= i < self@.cells.len() ==> r@.cells[i] == Some(
                    ScalarV::Bool(#[trigger] self@.cells[i] is None),
                ),
            r.wf(),
    {
        let n = self.data.len();
        let mut out: Vec<Option<Scalar>> = Vec::new();
        let mut i: usize = 0;
        while i < n
            invariant
                0 <= i <= n,
                n == self@.cells.len(),
                out@.len() == i,
                forall|j: int|
                    0 <= j < i ==> (#[trigger] out@[j]).deep_view() == Some(
                        ScalarV::Bool(self@.cells[j] is None),
                    ),
            decreases n - i,
        {
            proof {
                assert(self.data.deep_view()[i as int] == self.data@[i as int].deep_view());
            }
            let b = match &self.data[i] {
                Some(_) => false,
                None => true,
            };
            out.push(Some(Scalar::Bool(b)));
            i = i + 1;
        }
        let name = self.name.clone().concat("_is_null");
        Series { name, dtype: DataType::Bool, data: out, flags: SeriesFlags::new() }
    }

    /// A boolean column marking each present cell `true`.
    pub fn not_null(&self) -> (r: Series)
        ensures
            r@.name == self@.name + "_not_null"@,
            r@.dtype == DataType::Bool,
            r@.cells.len() == self@.cells.len(),
            forall|i: int|
                0 <= i < self@.cells.len() ==> r@.cells[i] == Some(
                    ScalarV::Bool(#[trigger] self@.cells[i] is Some),
                ),
            r.wf(),
    {
        let n = self.data.len();
        let mut out: Vec<Option<Scalar>> = Vec::new();
        let mut i: usize = 0;
        while i < n
            invariant
                0 <= i <= n,
                n == self@.cells.len(),
                out@.len() == i,
                forall|j: int|
                    0 <= j < i ==> (#[trigger] out@[j]).deep_view() == Some(
                        ScalarV::Bool(self@.cells[j] is Some),
                    ),
            decreases n - i,
        {
            proof {
                assert(self.data.deep_view()[i as int] == self.data@[i as int].deep_view());
            }
            let b = match &self.data[i] {
                Some(_) => true,
                None => false,
            };
            out.push(Some(Scalar::Bool(b)));
            i = i + 1;
        }
        let name = self.name.clone().concat("_not_null");
        Series { name, dtype: DataType::Bool, data: out, flags: SeriesFlags::new() }
    }

    /// A copy with every missing cell replaced by `value`, which must
    /// carry the column's kind.
    pub fn fill_null(&self, value: Scalar) -> (r: Series)
        requires
            self.wf(),
            sv_kind(value.deep_view()) == self@.dtype,
        ensures
            r@.name == self@.name,
            r@.dtype == self@.dtype,
            r@.cells.len() == self@.cells.len(),
            forall|i: int|
                0 <= i < self@.cells.len() ==> r@.cells[i] == (
                match #[trigger] self@.cells[i] {
                    Some(v) => Some(v),
                    None => Some(value.deep_view()),
                }),
            r.wf(),
    {
        let n = self.data.len();
        let mut out: Vec<Option<Scalar>> = Vec::new();
        let mut i: usize = 0;
        while i < n
            invariant
                0 <= i <= n,
                n == self@.cells.len(),
                out@.len() == i,
                forall|j: int|
                    0 <= j < i ==> (#[trigger] out@[j]).deep_view() == (match self@.cells[j] {
                        Some(v) => Some(v),
                        None => Some(value.deep_view()),
                    }),
            decreases n - i,
        {
            proof {
                assert(self.data.deep_view()[i as int] == self.data@[i as int].deep_view());
            }
            let cell = match &self.data[i] {
                Some(v) => Some(v.clone()),
                None => Some(value.clone()),
            };
            out.push(cell);
            i = i + 1;
        }
        let r = Series {
            name: self.name.clone(),
            dtype: self.dtype.clone(),
            data: out,
            flags: SeriesFlags::new(),
        };
        proof {
            assert forall|k: int| 0 <= k < r@.cells.len() implies cell_ok(
                #[trigger] r@.cells[k],
                r@.dtype,
            ) by {
                assert(cell_ok(self@.cells[k], self@.dtype));
            }
        }
        r
    }

    /// Whether every cell is the boolean `true`.
    pub fn all(&self) -> (r: bool)
        ensures
            r == (forall|i: int|
                0 <= i < self@.cells.len() ==> is_true_cell(#[trigger] self@.cells[i])),
    {
        let n = self.data.len();
        let mut i: usize = 0;
        while i < n
            invariant
                0 <= i <= n,
                n == self@.cells.len(),
                forall|j: int| 0 <= j < i ==> is_true_cell(#[trigger] self@.cells[j]),
            decreases n - i,
        {
            proof {
                assert(self.data.deep_view()[i as int] == self.data@[i as int].deep_view());
            }
            match &self.data[i] {
                Some(Scalar::Bool(true)) => {},
                _ => {
                    return false;
                },
            }
            i = i + 1;
        }
        true
    }

    /// Whether some cell is the boolean `true`.
    pub fn any(&self) -> (r: bool)
        ensures
            r == (exists|i: int|
                0 <= i < self@.cells.len() && is_true_cell(#[trigger] self@.cells[i])),
    {
        let n = self.data.len();
        let mut i: usize = 0;
        while i < n
            invariant
                0 <= i <= n,
                n == self@.cells.len(),
                forall|j: int| 0 <= j < i ==> !is_true_cell(#[trigger] self@.cells[j]),
            decreases n - i,
        {
            proof {
                assert(self.data.deep_view()[i as int] == self.data@[i as int].deep_view());
            }
            match &self.data[i] {
                Some(Scalar::Bool(true)) => {
                    return true;
                },
                _ => {},
            }
            i = i + 1;
        }
        false
    }
}

} // verus!
