//! Structural column transforms: masked filtering, index gather (with and
//! without null-producing gaps) and slicing.

use vstd::prelude::*;
use crate::dtype::DataType;
use crate::error::{AxionError, AxionResult};
use crate::scalar::{Scalar, ScalarV, is_true_cell, clone_cell};
use crate::series::{Series, SeriesFlags, SeriesV, cell_ok};

verus! {

/// The cells kept by a mask: cell `i` survives exactly when the mask is
/// `true` (not `false`, not missing) at `i`. Only the first `n` cells are
/// considered.
pub open spec fn filter_prefix(
    cells: Seq<Option<ScalarV>>,
    mask: Seq<Option<ScalarV>>,
    n: int,
) -> Seq<Option<ScalarV>>
    decreases n,
{
    if n <= 0 {
        Seq::empty()
    } else {
        let rest = filter_prefix(cells, mask, n - 1);
        if is_true_cell(mask[n - 1]) {
            rest.push(cells[n - 1])
        } else {
            rest
        }
    }
}

/// The cells kept by a mask over a whole column.
pub open spec fn filter_model(
    cells: Seq<Option<ScalarV>>,
    mask: Seq<Option<ScalarV>>,
) -> Seq<Option<ScalarV>> {
    filter_prefix(cells, mask, cells.len() as int)
}

/// Whether a cell occurs among the first `n` cells of a column.
pub open spec fn cell_among(cells: Seq<Option<ScalarV>>, c: Option<ScalarV>, n: int) -> bool {
    exists|i: int| 0 <= i < n && c == cells[i]
}

/// Every cell the filter keeps was among the cells it was given.
pub proof fn lemma_filter_prefix_sub(
    cells: Seq<Option<ScalarV>>,
    mask: Seq<Option<ScalarV>>,
    n: int,
)
    requires
        n <= cells.len(),
    ensures
        forall|k: int|
            0 <= k < filter_prefix(cells, mask, n).len() ==> cell_among(
                cells,
                #[trigger] filter_prefix(cells, mask, n)[k],
                n,
            ),
    decreases n,
{
    if n > 0 {
        lemma_filter_prefix_sub(cells, mask, n - 1);
        assert forall|k: int| 0 <= k < filter_prefix(cells, mask, n).len() implies cell_among(
            cells,
            #[trigger] filter_prefix(cells, mask, n)[k],
            n,
        ) by {
            let rest = filter_prefix(cells, mask, n - 1);
            if k < rest.len() {
                assert(filter_prefix(cells, mask, n)[k] == rest[k]);
                assert(cell_among(cells, rest[k], n - 1));
                let i = choose|i: int| 0 <= i < n - 1 && rest[k] == cells[i];
                assert(0 <= i < n && filter_prefix(cells, mask, n)[k] == cells[i]);
            } else {
                assert(filter_prefix(cells, mask, n)[k] == cells[n - 1]);
            }
        }
    }
}

/// The filtered column is never longer than its source.
pub proof fn lemma_filter_prefix_len(
    cells: Seq<Option<ScalarV>>,
    mask: Seq<Option<ScalarV>>,
    n: int,
)
    ensures
        filter_prefix(cells, mask, n).len() <= if n <= 0 {
            0
        } else {
            n
        },
    decreases n,
{
    if n > 0 {
        lemma_filter_prefix_len(cells, mask, n - 1);
    }
}

/// Gathering: the cell at each requested position, in request order.
pub open spec fn gather_model(cells: Seq<Option<ScalarV>>, idx: Seq<usize>) -> Seq<
    Option<ScalarV>,
> {
    Seq::new(idx.len(), |j: int| cells[idx[j] as int])
}

/// Gathering with gaps: a missing position becomes a missing cell.
pub open spec fn gather_opt_model(cells: Seq<Option<ScalarV>>, idx: Seq<Option<usize>>) -> Seq<
    Option<ScalarV>,
> {
    Seq::new(
        idx.len(),
        |j: int|
            match idx[j] {
                Some(k) => cells[k as int],
                None => None,
            },
    )
}

/// The clamped bounds of a slice: `start` is `offset` held to the column's
/// length, `end` reaches at most `length` cells further, again held to the
/// column's length.
pub open spec fn slice_bounds(len: int, offset: int, length: int) -> (int, int) {
    let start = if offset < len {
        offset
    } else {
        len
    };
    let end = if start + length < len {
        start + length
    } else {
        len
    };
    (start, end)
}

impl Series {
    /// Keeps the cells whose mask entry is `true`; a `false` or missing
    /// mask entry drops the row. The mask must be as long as the column.
    pub fn filter(&self, mask: &Series) -> (r: Series)
        requires
            self.wf(),
            mask@.cells.len() == self@.cells.len(),
        ensures
            r@.name == self@.name,
            r@.dtype == self@.dtype,
            r@.cells == filter_model(self@.cells, mask@.cells),
            !r@.sorted_asc,
            !r@.sorted_desc,
            r.wf(),
    {
        let n = self.data.len();
        let mut out: Vec<Option<Scalar>> = Vec::new();
        let mut i: usize = 0;
        while i < n
            invariant
                0 <= i <= n,
                n == self@.cells.len(),
                n == mask@.cells.len(),
                out.deep_view() == filter_prefix(self@.cells, mask@.cells, i as int),
            decreases n - i,
        {
            let keep = match &mask.data[i] {
                Some(Scalar::Bool(true)) => true,
                _ => false,
            };
            proof {
                assert(mask.data.deep_view()[i as int] == mask.data@[i as int].deep_view());
                assert(keep == is_true_cell(mask@.cells[i as int]));
            }
            if keep {
                out.push(clone_cell(&self.data[i]));
                proof {
                    assert(self.data.deep_view()[i as int] == self.data@[i as int].deep_view());
                    assert(out.deep_view() =~= filter_prefix(
                        self@.cells,
                        mask@.cells,
                        i as int + 1,
                    ));
                }
            }
            i = i + 1;
        }
        let r = Series {
            name: self.name.clone(),
            dtype: self.dtype.clone(),
            data: out,
            flags: SeriesFlags::new(),
        };
        proof {
            lemma_filter_prefix_sub(self@.cells, mask@.cells, n as int);
            assert forall|k: int| 0 <= k < r@.cells.len() implies cell_ok(
                #[trigger] r@.cells[k],
                r@.dtype,
            ) by {
                assert(cell_among(self@.cells, r@.cells[k], n as int));
                let i = choose|i: int| 0 <= i < n && r@.cells[k] == self@.cells[i];
                assert(cell_ok(self@.cells[i], self@.dtype));
            }
        }
        r
    }

    /// A new column holding the cells at the given positions, in that
    /// order; a position past the end is an error naming it.
    pub fn take_indices(&self, indices: &Vec<usize>) -> (r: AxionResult<Series>)
        requires
            self.wf(),
        ensures
            r is Ok <==> (forall|j: int|
                0 <= j < indices@.len() ==> #[trigger] indices@[j] < self@.cells.len()),
            r matches Ok(s) ==> {
                &&& s@.name == self@.name
                &&& s@.dtype == self@.dtype
                &&& s@.cells == gather_model(self@.cells, indices@)
                &&& s.wf()
            },
            r matches Err(e) ==> (e matches AxionError::IndexOutOfBounds(i, l) && l
                == self@.cells.len() && i >= self@.cells.len() && (exists|j: int|
                0 <= j < indices@.len() && indices@[j] == i)),
    {
        let n = indices.len();
        let mut out: Vec<Option<Scalar>> = Vec::new();
        let mut j: usize = 0;
        while j < n
            invariant
                0 <= j <= n,
                n == indices@.len(),
                self.wf(),
                out@.len() == j,
                forall|k: int| 0 <= k < j ==> #[trigger] indices@[k] < self@.cells.len(),
                forall|k: int|
                    0 <= k < j ==> (#[trigger] out@[k]).deep_view() == self@.cells[indices@[k] as int],
            decreases n - j,
        {
            let idx = indices[j];
            if idx >= self.data.len() {
                return Err(AxionError::IndexOutOfBounds(idx, self.data.len()));
            }
            out.push(clone_cell(&self.data[idx]));
            proof {
                assert(self.data.deep_view()[idx as int] == self.data@[idx as int].deep_view());
            }
            j = j + 1;
        }
        let r = Series {
            name: self.name.clone(),
            dtype: self.dtype.clone(),
            data: out,
            flags: SeriesFlags::new(),
        };
        proof {
            assert(r@.cells =~= gather_model(self@.cells, indices@));
        }
        Ok(r)
    }

    /// A new column holding the cells at the given positions; a missing
    /// position contributes a missing cell instead of failing.
    pub fn take_indices_option(&self, indices: &Vec<Option<usize>>) -> (r: AxionResult<Series>)
        requires
            self.wf(),
        ensures
            r is Ok <==> (forall|j: int|
                0 <= j < indices.deep_view().len() ==> (#[trigger] indices.deep_view()[j] matches
                Some(k) ==> k < self@.cells.len())),
            r matches Ok(s) ==> {
                &&& s@.name == self@.name
                &&& s@.dtype == self@.dtype
                &&& s@.cells == gather_opt_model(self@.cells, indices.deep_view())
                &&& s.wf()
            },
            r matches Err(e) ==> (e matches AxionError::IndexOutOfBounds(i, l) && l
                == self@.cells.len() && i >= self@.cells.len() && (exists|j: int|
                0 <= j < indices.deep_view().len() && indices.deep_view()[j] == Some(i))),
    {
        let n = indices.len();
        let mut out: Vec<Option<Scalar>> = Vec::new();
        let mut j: usize = 0;
        while j < n
            invariant
                0 <= j <= n,
                n == indices.deep_view().len(),
                self.wf(),
                out@.len() == j,
                forall|k: int|
                    0 <= k < j ==> (#[trigger] indices.deep_view()[k] matches Some(idx) ==> idx
                        < self@.cells.len()),
                forall|k: int|
                    0 <= k < j ==> (#[trigger] out@[k]).deep_view() == (
                    match indices.deep_view()[k] {
                        Some(idx) => self@.cells[idx as int],
                        None => None,
                    }),
            decreases n - j,
        {
            proof {
                assert(indices.deep_view()[j as int] == indices@[j as int].deep_view());
            }
            match &indices[j] {
                Some(idx) => {
                    let idx = *idx;
                    if idx >= self.data.len() {
                        return Err(AxionError::IndexOutOfBounds(idx, self.data.len()));
                    }
                    out.push(clone_cell(&self.data[idx]));
                    proof {
                        assert(self.data.deep_view()[idx as int] == self.data@[
                            idx as int
                        ].deep_view());
                    }
                },
                None => {
                    out.push(None);
                },
            }
            j = j + 1;
        }
        let r = Series {
            name: self.name.clone(),
            dtype: self.dtype.clone(),
            data: out,
            flags: SeriesFlags::new(),
        };
        proof {
            assert(r@.cells =~= gather_opt_model(self@.cells, indices.deep_view()));
        }
        Ok(r)
    }

    /// A copy of up to `length` cells starting at `offset`, both held to
    /// the column's bounds.
    pub fn slice(&self, offset: usize, length: usize) -> (r: Series)
        requires
            self.wf(),
        ensures
            r@.name == self@.name,
            r@.dtype == self@.dtype,
            r@.cells == self@.cells.subrange(
                slice_bounds(self@.cells.len() as int, offset as int, length as int).0,
                slice_bounds(self@.cells.len() as int, offset as int, length as int).1,
            ),
            r.wf(),
    {
        let n = self.data.len();
        let start = if offset < n {
            offset
        } else {
            n
        };
        let end = if length < n - start {
            start + length
        } else {
            n
        };
        let mut out: Vec<Option<Scalar>> = Vec::new();
        let mut i: usize = start;
        while i < end
            invariant
                start <= i <= end <= n,
                n == self@.cells.len(),
                self.wf(),
                out@.len() == i - start,
                forall|k: int|
                    0 <= k < i - start ==> (#[trigger] out@[k]).deep_view() == self@.cells[start
                        + k],
            decreases end - i,
        {
            out.push(clone_cell(&self.data[i]));
            proof {
                assert(self.data.deep_view()[i as int] == self.data@[i as int].deep_view());
            }
            i = i + 1;
        }
        let r = Series {
            name: self.name.clone(),
            dtype: self.dtype.clone(),
            data: out,
            flags: SeriesFlags::new(),
        };
        proof {
            let (s, e) = slice_bounds(self@.cells.len() as int, offset as int, length as int);
            assert(s == start as int && e == end as int);
            assert(r@.cells =~= self@.cells.subrange(start as int, end as int));
        }
        r
    }
}

} // verus!
