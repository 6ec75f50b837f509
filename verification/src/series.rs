//! The column: a named, positionally-nullable, homogeneously-kinded
//! growable array with cached sortedness flags.

use vstd::prelude::*;
use core::cmp::Ordering;
use crate::dtype::{DataType, dtype_eq};
use crate::error::{AxionError, AxionResult};
use crate::scalar::{
    Scalar, ScalarV, sv_kind, sv_cmp, is_true_cell, clone_cell, cell_eq, scalar_cmp,
};
use crate::strutil::{dec_str_signed, bool_str, i64_to_dec, u64_to_dec, bool_to_dec, str_eq};

verus! {

/// Cached sortedness marks, cleared on any mutation of the data.
#[derive(Debug, Clone, Copy)]
pub struct SeriesFlags {
    pub is_sorted_ascending: bool,
    pub is_sorted_descending: bool,
}

impl SeriesFlags {
    /// Marks nothing as sorted.
    pub fn new() -> (r: SeriesFlags)
        ensures
            !r.is_sorted_ascending,
            !r.is_sorted_descending,
    {
        SeriesFlags { is_sorted_ascending: false, is_sorted_descending: false }
    }

    /// Whether the data is marked sorted ascending.
    pub fn is_sorted_ascending(&self) -> (r: bool)
        ensures
            r == self.is_sorted_ascending,
    {
        self.is_sorted_ascending
    }

    /// Whether the data is marked sorted descending.
    pub fn is_sorted_descending(&self) -> (r: bool)
        ensures
            r == self.is_sorted_descending,
    {
        self.is_sorted_descending
    }

    /// Whether the data is marked sorted in either direction.
    pub fn is_sorted(&self) -> (r: bool)
        ensures
            r == (self.is_sorted_ascending || self.is_sorted_descending),
    {
        self.is_sorted_ascending || self.is_sorted_descending
    }
}

/// Whether a modelled cell may live in a column of the given kind: a
/// missing cell always may, a present one only when its kind is the
/// column's.
pub open spec fn cell_ok(c: Option<ScalarV>, dt: DataType) -> bool {
    match c {
        Some(v) => sv_kind(v) == dt,
        None => true,
    }
}

/// The mathematical model of a column.
#[verifier::ext_equal]
pub struct SeriesV {
    pub name: Seq<char>,
    pub dtype: DataType,
    pub cells: Seq<Option<ScalarV>>,
    pub sorted_asc: bool,
    pub sorted_desc: bool,
}

/// A named, nullable, single-kind column of cells.
#[derive(Debug)]
pub struct Series {
    pub(crate) name: String,
    pub(crate) dtype: DataType,
    pub(crate) data: Vec<Option<Scalar>>,
    pub(crate) flags: SeriesFlags,
}

impl View for Series {
    type V = SeriesV;

    open(crate) spec fn view(&self) -> SeriesV {
        SeriesV {
            name: self.name@,
            dtype: self.dtype,
            cells: self.data.deep_view(),
            sorted_asc: self.flags.is_sorted_ascending,
            sorted_desc: self.flags.is_sorted_descending,
        }
    }
}

/// Every present cell of a modelled column carries the column's kind.
pub open spec fn series_wf(v: SeriesV) -> bool {
    forall|i: int| 0 <= i < v.cells.len() ==> cell_ok(#[trigger] v.cells[i], v.dtype)
}

impl Series {
    /// Every present cell carries the column's kind.
    pub open spec fn wf(&self) -> bool {
        series_wf(self@)
    }

    /// An empty column of the given kind.
    pub fn new_empty(name: String, dtype: DataType) -> (s: Series)
        ensures
            s@.name == name@,
            s@.dtype == dtype,
            s@.cells.len() == 0,
            !s@.sorted_asc,
            !s@.sorted_desc,
            s.wf(),
    {
        Series { name, dtype, data: Vec::new(), flags: SeriesFlags::new() }
    }

    /// A column built from explicit optional cells; a present cell whose
    /// kind is not `dtype` is rejected with a kind-mismatch error naming
    /// the column.
    pub fn new_from_options(name: String, dtype: DataType, data: Vec<Option<Scalar>>) -> (r:
        AxionResult<Series>)
        ensures
            r matches Ok(s) ==> {
                &&& s@.name == name@
                &&& s@.dtype == dtype
                &&& s@.cells == data.deep_view()
                &&& !s@.sorted_asc
                &&& !s@.sorted_desc
                &&& s.wf()
            },
            r is Ok <==> (forall|i: int|
                0 <= i < data.deep_view().len() ==> cell_ok(
                    #[trigger] data.deep_view()[i],
                    dtype,
                )),
            r matches Err(e) ==> (e matches AxionError::TypeMismatch { expected, found, name: n }
                && expected == dtype && n@ == name@),
    {
        let n = data.len();
        let mut i: usize = 0;
        while i < n
            invariant
                0 <= i <= n,
                n == data.deep_view().len(),
                forall|j: int| 0 <= j < i ==> cell_ok(#[trigger] data.deep_view()[j], dtype),
            decreases n - i,
        {
            match &data[i] {
                Some(v) => {
                    let k = v.kind();
                    if !dtype_eq(&k, &dtype) {
                        proof {
                            assert(data.deep_view()[i as int] == data@[i as int].deep_view());
                            assert(!cell_ok(data.deep_view()[i as int], dtype));
                        }
                        return Err(
                            AxionError::TypeMismatch { expected: dtype, found: k, name: name },
                        );
                    }
                },
                None => {},
            }
            i = i + 1;
        }
        Ok(Series { name, dtype, data, flags: SeriesFlags::new() })
    }

    /// A column of present values only, all of the given kind.
    pub fn new(name: String, dtype: DataType, values: Vec<Scalar>) -> (r: AxionResult<Series>)
        ensures
            r matches Ok(s) ==> {
                &&& s@.name == name@
                &&& s@.dtype == dtype
                &&& s@.cells.len() == values.deep_view().len()
                &&& (forall|i: int|
                    0 <= i < values.deep_view().len() ==> s@.cells[i] == Some(
                        #[trigger] values.deep_view()[i],
                    ))
                &&& s.wf()
            },
            r is Ok <==> (forall|i: int|
                0 <= i < values.deep_view().len() ==> sv_kind(#[trigger] values.deep_view()[i])
                    == dtype),
    {
        let n = values.len();
        let mut cells: Vec<Option<Scalar>> = Vec::new();
        let mut i: usize = 0;
        while i < n
            invariant
                0 <= i <= n,
                n == values.deep_view().len(),
                cells.deep_view().len() == i,
                forall|j: int|
                    0 <= j < i ==> cells.deep_view()[j] == Some(#[trigger] values.deep_view()[j]),
                forall|j: int| 0 <= j < i ==> sv_kind(#[trigger] values.deep_view()[j]) == dtype,
            decreases n - i,
        {
            let v = &values[i];
            let k = v.kind();
            if !dtype_eq(&k, &dtype) {
                proof {
                    assert(values.deep_view()[i as int] == values@[i as int].deep_view());
                }
                return Err(AxionError::TypeMismatch { expected: dtype, found: k, name: name });
            }
            proof {
                assert(values.deep_view()[i as int] == values@[i as int].deep_view());
            }
            cells.push(Some(v.clone()));
            i = i + 1;
        }
        let s = Series { name, dtype, data: cells, flags: SeriesFlags::new() };
        proof {
            assert(s@.cells == cells.deep_view());
            assert forall|j: int| 0 <= j < s@.cells.len() implies cell_ok(
                #[trigger] s@.cells[j],
                dtype,
            ) by {
                assert(s@.cells[j] == Some(values.deep_view()[j]));
            }
        }
        Ok(s)
    }

    /// The column's name.
    pub fn name(&self) -> (r: &str)
        ensures
            r@ == self@.name,
    {
        self.name.as_str()
    }

    /// The column's kind.
    pub fn dtype(&self) -> (r: DataType)
        ensures
            r == self@.dtype,
    {
        self.dtype.clone()
    }

    /// The number of cells, missing ones included.
    pub fn len(&self) -> (r: usize)
        ensures
            r == self@.cells.len(),
    {
        self.data.len()
    }

    /// Whether the column has no cells.
    pub fn is_empty(&self) -> (r: bool)
        ensures
            r == (self@.cells.len() == 0),
    {
        self.data.len() == 0
    }

    /// The cell at `index`, present values only: `None` both for a
    /// missing cell and for an index past the end.
    pub fn get(&self, index: usize) -> (r: Option<&Scalar>)
        ensures
            r matches Some(v) ==> index < self@.cells.len() && self@.cells[index as int] == Some(
                v.deep_view(),
            ),
            r is None ==> index >= self@.cells.len() || self@.cells[index as int] is None,
    {
        if index < self.data.len() {
            match &self.data[index] {
                Some(v) => Some(v),
                None => None,
            }
        } else {
            None
        }
    }

    /// The cell at `index`, separating a missing cell (`Some(None)`)
    /// from an index past the end (`None`).
    pub fn get_opt(&self, index: usize) -> (r: Option<Option<&Scalar>>)
        ensures
            r is None <==> index >= self@.cells.len(),
            r matches Some(c) ==> index < self@.cells.len() && (match c {
                Some(v) => self@.cells[index as int] == Some(v.deep_view()),
                None => self@.cells[index as int] is None,
            }),
    {
        if index < self.data.len() {
            match &self.data[index] {
                Some(v) => Some(Some(v)),
                None => Some(None),
            }
        } else {
            None
        }
    }

    /// A borrow of the stored cells.
    pub fn data_internal(&self) -> (r: &Vec<Option<Scalar>>)
        ensures
            r.deep_view() == self@.cells,
    {
        &self.data
    }

    /// The stored cells, the column consumed.
    pub fn take_inner(self) -> (r: Vec<Option<Scalar>>)
        ensures
            r.deep_view() == self@.cells,
    {
        self.data
    }

    /// Gives the column a new name.
    pub fn rename(&mut self, name: String)
        ensures
            final(self)@ == (SeriesV { name: name@, ..old(self)@ }),
    {
        self.name = name;
    }

    /// The column under a new name, the column consumed.
    pub fn with_name(self, name: String) -> (r: Series)
        ensures
            r@ == (SeriesV { name: name@, ..self@ }),
    {
        let mut s = self;
        s.name = name;
        s
    }

    /// Empties the column: no cells, kind reset to `Null`.
    pub fn clear(&mut self)
        ensures
            final(self)@.cells.len() == 0,
            final(self)@.dtype == DataType::Null,
            final(self)@.name == old(self)@.name,
            !final(self)@.sorted_asc,
            !final(self)@.sorted_desc,
            final(self).wf(),
    {
        self.data.clear();
        self.dtype = DataType::Null;
        self.flags = SeriesFlags::new();
    }

    /// Appends one cell. A column still of kind `Null` takes its kind
    /// from the first present value pushed; the sortedness marks are
    /// cleared.
    pub fn push(&mut self, value: Option<Scalar>)
        requires
            old(self).wf(),
            old(self)@.dtype == DataType::Null || cell_ok(value.deep_view(), old(self)@.dtype),
        ensures
            final(self)@.cells == old(self)@.cells.push(value.deep_view()),
            final(self)@.name == old(self)@.name,
            final(self)@.dtype == (if old(self)@.dtype == DataType::Null {
                match value.deep_view() {
                    Some(v) => sv_kind(v),
                    None => DataType::Null,
                }
            } else {
                old(self)@.dtype
            }),
            !final(self)@.sorted_asc,
            !final(self)@.sorted_desc,
            final(self).wf(),
    {
        if dtype_eq(&self.dtype, &DataType::Null) {
            if let Some(v) = &value {
                self.dtype = v.kind();
            }
        }
        self.flags = SeriesFlags::new();
        self.data.push(value);
        proof {
            assert(self@.cells =~= old(self)@.cells.push(value.deep_view()));
            assert forall|i: int| 0 <= i < self@.cells.len() implies cell_ok(
                #[trigger] self@.cells[i],
                self@.dtype,
            ) by {
                if i < old(self)@.cells.len() {
                    assert(self@.cells[i] == old(self)@.cells[i]);
                    if old(self)@.dtype == DataType::Null {
                        // a column of kind `Null` holds no present cell,
                        // since no value's kind is `Null`
                        assert(cell_ok(old(self)@.cells[i], DataType::Null));
                        if old(self)@.cells[i] is Some {
                            let v = old(self)@.cells[i]->0;
                            assert(sv_kind(v) == DataType::Null);
                            assert(false);
                        }
                    } else {
                        assert(cell_ok(old(self)@.cells[i], old(self)@.dtype));
                    }
                } else {
                    assert(self@.cells[i] == value.deep_view());
                }
            }
        }
    }

    /// Whether the data is marked sorted ascending.
    pub fn is_sorted_ascending(&self) -> (r: bool)
        ensures
            r == self@.sorted_asc,
    {
        self.flags.is_sorted_ascending()
    }

    /// Whether the data is marked sorted descending.
    pub fn is_sorted_descending(&self) -> (r: bool)
        ensures
            r == self@.sorted_desc,
    {
        self.flags.is_sorted_descending()
    }

    /// Whether the data is marked sorted in either direction.
    pub fn is_sorted(&self) -> (r: bool)
        ensures
            r == (self@.sorted_asc || self@.sorted_desc),
    {
        self.flags.is_sorted()
    }

    /// Sets the sortedness marks.
    pub fn set_sorted_flag(&mut self, ascending: bool, descending: bool)
        ensures
            final(self)@ == (SeriesV {
                sorted_asc: ascending,
                sorted_desc: descending,
                ..old(self)@
            }),
    {
        self.flags = SeriesFlags { is_sorted_ascending: ascending, is_sorted_descending: descending };
    }

    /// A copy of the sortedness marks.
    pub fn get_flags(&self) -> (r: SeriesFlags)
        ensures
            r.is_sorted_ascending == self@.sorted_asc,
            r.is_sorted_descending == self@.sorted_desc,
    {
        self.flags
    }
}

impl Clone for Series {
    /// A value copy, deep for the stored cells.
    fn clone(&self) -> (r: Self)
        ensures
            r@ == self@,
    {
        let n = self.data.len();
        let mut cells: Vec<Option<Scalar>> = Vec::new();
        let mut i: usize = 0;
        while i < n
            invariant
                0 <= i <= n,
                n == self.data.deep_view().len(),
                cells.deep_view().len() == i,
                forall|j: int|
                    0 <= j < i ==> cells.deep_view()[j] == #[trigger] self.data.deep_view()[j],
            decreases n - i,
        {
            cells.push(clone_cell(&self.data[i]));
            i = i + 1;
        }
        let r = Series {
            name: self.name.clone(),
            dtype: self.dtype.clone(),
            data: cells,
            flags: self.flags,
        };
        proof {
            assert(r@.cells =~= self@.cells);
            assert(r@ =~= self@);
        }
        r
    }
}

} // verus!
