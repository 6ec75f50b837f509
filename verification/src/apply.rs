//! The elementwise transform layer: mapping a caller-supplied function
//! over every cell of a column, sequentially or data-parallel, and the
//! column-parallel table filter. The parallel forms are order-preserving
//! and, for a function whose outcome depends only on its argument's
//! value, indistinguishable from the sequential forms.

use vstd::prelude::*;
use rayon::iter::{IntoParallelRefIterator, ParallelIterator};
use crate::dtype::{DataType, dtype_eq};
use crate::error::{AxionError, AxionResult};
use crate::scalar::{Scalar, ScalarV};
use crate::series::{Series, SeriesFlags, SeriesV, cell_ok, series_wf};
use crate::table::{DataFrame, col_views};
use crate::transform::filter_model;
use crate::table_ops::lemma_filter_len_agree;

verus! {

/// One output cell is a possible outcome of the function on a value
/// modelling one input cell.
pub open spec fn cell_outcome<F: Fn(&Option<Scalar>) -> Option<Scalar>>(
    f: F,
    input: Option<ScalarV>,
    output: Option<ScalarV>,
) -> bool {
    exists|x: Option<Scalar>, y: Option<Scalar>|
        #![trigger call_ensures(f, (&x,), y)]
        x.deep_view() == input && y.deep_view() == output && call_ensures(f, (&x,), y)
}

/// What an elementwise application leaves behind: as many outputs as
/// inputs, and each output a possible outcome of the function on a value
/// modelling its input.
pub open spec fn apply_post<F: Fn(&Option<Scalar>) -> Option<Scalar>>(
    f: F,
    inputs: Seq<Option<ScalarV>>,
    outputs: Seq<Option<ScalarV>>,
) -> bool {
    &&& outputs.len() == inputs.len()
    &&& (forall|i: int|
        0 <= i < inputs.len() ==> cell_outcome(f, inputs[i], #[trigger] outputs[i]))
}

/// A function whose visible outcome depends only on its argument's
/// value: equal inputs can only yield equal outputs.
pub open spec fn value_deterministic<F: Fn(&Option<Scalar>) -> Option<Scalar>>(f: F) -> bool {
    forall|x1: Option<Scalar>, x2: Option<Scalar>, y1: Option<Scalar>, y2: Option<Scalar>|
        #[trigger] call_ensures(f, (&x1,), y1) && #[trigger] call_ensures(f, (&x2,), y2)
            && x1.deep_view() == x2.deep_view() ==> y1.deep_view() == y2.deep_view()
}

/// For a value-deterministic function, any two elementwise applications
/// to the same cells — the sequential and the parallel one among them —
/// produce the same cells.
pub proof fn lemma_apply_deterministic<F: Fn(&Option<Scalar>) -> Option<Scalar>>(
    f: F,
    inputs: Seq<Option<ScalarV>>,
    out1: Seq<Option<ScalarV>>,
    out2: Seq<Option<ScalarV>>,
)
    requires
        apply_post(f, inputs, out1),
        apply_post(f, inputs, out2),
        value_deterministic(f),
    ensures
        out1 == out2,
{
    assert forall|i: int| 0 <= i < inputs.len() implies out1[i] == out2[i] by {
        assert(cell_outcome(f, inputs[i], out1[i]));
        assert(cell_outcome(f, inputs[i], out2[i]));
        let (x1, y1) = choose|x1: Option<Scalar>, y1: Option<Scalar>|
            x1.deep_view() == inputs[i] && y1.deep_view() == out1[i] && call_ensures(f, (&x1,), y1);
        let (x2, y2) = choose|x2: Option<Scalar>, y2: Option<Scalar>|
            x2.deep_view() == inputs[i] && y2.deep_view() == out2[i] && call_ensures(f, (&x2,), y2);
        assert(y1.deep_view() == y2.deep_view());
    }
    assert(out1 =~= out2);
}

/// Relies on rayon's `par_iter().map(..).collect()`: the function is
/// applied to every cell independently and the results are collected
/// back in the cells' original order.
#[verifier::external_body]
fn par_map_cells<F: Fn(&Option<Scalar>) -> Option<Scalar> + Send + Sync>(
    data: &Vec<Option<Scalar>>,
    f: &F,
) -> (r: Vec<Option<Scalar>>)
    requires
        forall|c: &Option<Scalar>| #[trigger] call_requires(*f, (c,)),
    ensures
        r@.len() == data@.len(),
        forall|i: int| 0 <= i < r@.len() ==> call_ensures(*f, (&data@[i],), #[trigger] r@[i]),
{
    data.par_iter().map(|c| f(c)).collect()
}

/// Relies on rayon's `par_iter().map(..).collect()`: each column is
/// filtered independently and the filtered columns come back in column
/// order. The closure only calls the verified column filter.
#[verifier::external_body]
fn par_filter_columns(cols: &Vec<Series>, mask: &Series) -> (r: Vec<Series>)
    requires
        forall|i: int|
            0 <= i < cols@.len() ==> (#[trigger] cols@[i]).wf() && cols@[i]@.cells.len()
                == mask@.cells.len(),
    ensures
        r@.len() == cols@.len(),
        forall|i: int|
            0 <= i < r@.len() ==> {
                &&& (#[trigger] r@[i])@.name == cols@[i]@.name
                &&& r@[i]@.dtype == cols@[i]@.dtype
                &&& r@[i]@.cells == filter_model(cols@[i]@.cells, mask@.cells)
                &&& !r@[i]@.sorted_asc
                &&& !r@[i]@.sorted_desc
                &&& r@[i].wf()
            },
{
    cols.par_iter().map(|c| c.filter(mask)).collect()
}

impl Series {
    /// Maps a function over every cell in order, the outputs forming a
    /// new column of the declared kind; an output of another kind is a
    /// mismatch error. An empty column stays empty without the function
    /// ever being invoked.
    pub fn apply<F: Fn(&Option<Scalar>) -> Option<Scalar>>(&self, dtype: DataType, f: &F) -> (r:
        AxionResult<Series>)
        requires
            self.wf(),
            forall|c: &Option<Scalar>| #[trigger] call_requires(*f, (c,)),
        ensures
            r matches Ok(s) ==> {
                &&& s@.name == self@.name
                &&& s@.dtype == dtype
                &&& apply_post(*f, self@.cells, s@.cells)
                &&& s.wf()
            },
            r matches Err(e) ==> e is TypeMismatch,
            self@.cells.len() == 0 ==> r is Ok,
    {
        let n = self.data.len();
        let mut out: Vec<Option<Scalar>> = Vec::new();
        let mut i: usize = 0;
        while i < n
            invariant
                0 <= i <= n,
                n == self@.cells.len(),
                self.wf(),
                forall|c: &Option<Scalar>| #[trigger] call_requires(*f, (c,)),
                out@.len() == i,
                forall|k: int|
                    0 <= k < i ==> call_ensures(*f, (&self.data@[k],), #[trigger] out@[k]),
                forall|k: int|
                    0 <= k < i ==> cell_ok((#[trigger] out@[k]).deep_view(), dtype),
            decreases n - i,
        {
            proof {
                assert(self.data.deep_view()[i as int] == self.data@[i as int].deep_view());
            }
            let y = f(&self.data[i]);
            match &y {
                Some(v) => {
                    let k = v.kind();
                    if !dtype_eq(&k, &dtype) {
                        return Err(
                            AxionError::TypeMismatch {
                                expected: dtype,
                                found: k,
                                name: String::from_str(self.name()),
                            },
                        );
                    }
                },
                None => {},
            }
            out.push(y);
            i = i + 1;
        }
        let r = Series {
            name: self.name.clone(),
            dtype,
            data: out,
            flags: SeriesFlags::new(),
        };
        proof {
            assert forall|k: int| 0 <= k < n implies cell_ok(#[trigger] r@.cells[k], dtype) by {
                assert(r@.cells[k] == out@[k].deep_view());
            }
            assert(r@.cells.len() == self@.cells.len());
            assert forall|i: int| 0 <= i < self@.cells.len() implies cell_outcome(
                *f,
                self@.cells[i],
                #[trigger] r@.cells[i],
            ) by {
                let x = self.data@[i];
                let y = out@[i];
                assert(r@.cells[i] == out@[i].deep_view());
                assert(x.deep_view() == self@.cells[i]);
                assert(call_ensures(*f, (&x,), y));
            }
            assert(apply_post(*f, self@.cells, r@.cells));
        }
        Ok(r)
    }

    /// A second name for the same mapping as `apply`.
    pub fn map<F: Fn(&Option<Scalar>) -> Option<Scalar>>(&self, dtype: DataType, f: &F) -> (r:
        AxionResult<Series>)
        requires
            self.wf(),
            forall|c: &Option<Scalar>| #[trigger] call_requires(*f, (c,)),
        ensures
            r matches Ok(s) ==> {
                &&& s@.name == self@.name
                &&& s@.dtype == dtype
                &&& apply_post(*f, self@.cells, s@.cells)
                &&& s.wf()
            },
            r matches Err(e) ==> e is TypeMismatch,
            self@.cells.len() == 0 ==> r is Ok,
    {
        self.apply(dtype, f)
    }

    /// Maps a function over every cell across a worker pool, the results
    /// collected back in original order; for a value-deterministic
    /// function the outcome is the same as `apply`'s. An empty column
    /// stays empty without the function ever being invoked.
    pub fn par_apply<F: Fn(&Option<Scalar>) -> Option<Scalar> + Send + Sync>(
        &self,
        dtype: DataType,
        f: &F,
    ) -> (r: AxionResult<Series>)
        requires
            self.wf(),
            forall|c: &Option<Scalar>| #[trigger] call_requires(*f, (c,)),
        ensures
            r matches Ok(s) ==> {
                &&& s@.name == self@.name
                &&& s@.dtype == dtype
                &&& apply_post(*f, self@.cells, s@.cells)
                &&& s.wf()
            },
            r matches Err(e) ==> e is TypeMismatch,
            self@.cells.len() == 0 ==> r is Ok,
    {
        if self.data.len() == 0 {
            let r = Series {
                name: self.name.clone(),
                dtype,
                data: Vec::new(),
                flags: SeriesFlags::new(),
            };
            proof {
                assert(r@.cells =~= Seq::<Option<ScalarV>>::empty());
            }
            return Ok(r);
        }
        let mapped = par_map_cells(&self.data, f);
        proof {
            assert(mapped@.len() == self@.cells.len());
        }
        // the declared kind is re-validated cell by cell
        let n = mapped.len();
        let mut i: usize = 0;
        while i < n
            invariant
                0 <= i <= n,
                n == mapped@.len(),
                n == self@.cells.len(),
                n > 0,
                forall|k: int|
                    0 <= k < i ==> cell_ok((#[trigger] mapped@[k]).deep_view(), dtype),
            decreases n - i,
        {
            match &mapped[i] {
                Some(v) => {
                    let k = v.kind();
                    if !dtype_eq(&k, &dtype) {
                        return Err(
                            AxionError::TypeMismatch {
                                expected: dtype,
                                found: k,
                                name: String::from_str(self.name()),
                            },
                        );
                    }
                },
                None => {},
            }
            i = i + 1;
        }
        let r = Series {
            name: self.name.clone(),
            dtype,
            data: mapped,
            flags: SeriesFlags::new(),
        };
        proof {
            assert forall|k: int| 0 <= k < n implies cell_ok(#[trigger] r@.cells[k], dtype) by {
                assert(r@.cells[k] == mapped@[k].deep_view());
            }
            assert(r@.cells.len() == self@.cells.len());
            assert forall|i: int| 0 <= i < self@.cells.len() implies cell_outcome(
                *f,
                self@.cells[i],
                #[trigger] r@.cells[i],
            ) by {
                let x = self.data@[i];
                let y = mapped@[i];
                assert(self.data.deep_view()[i] == self.data@[i].deep_view());
                assert(r@.cells[i] == mapped@[i].deep_view());
                assert(x.deep_view() == self@.cells[i]);
                assert(call_ensures(*f, (&x,), y));
            }
            assert(apply_post(*f, self@.cells, r@.cells));
        }
        Ok(r)
    }
}

impl DataFrame {
    /// The masked row filter, each column filtered on its own worker;
    /// the outcome is the same as the sequential filter's.
    pub fn par_filter(&self, mask: &Series) -> (r: AxionResult<DataFrame>)
        requires
            self.wf(),
        ensures
            r is Ok <==> mask@.cells.len() == self@.height,
            r matches Ok(df) ==> {
                &&& df.wf()
                &&& df@.columns.len() == self@.columns.len()
                &&& (forall|i: int|
                    0 <= i < self@.columns.len() ==> (#[trigger] df@.columns[i]).cells
                        == filter_model((#[trigger] self@.columns[i]).cells, mask@.cells)
                        && df@.columns[i].name == self@.columns[i].name && df@.columns[i].dtype
                        == self@.columns[i].dtype && !df@.columns[i].sorted_asc
                        && !df@.columns[i].sorted_desc)
                &&& df@.height == (if self@.columns.len() == 0 {
                    0
                } else {
                    filter_model(self@.columns[0].cells, mask@.cells).len() as int
                })
            },
            r matches Err(e) ==> e matches AxionError::MismatchedLengths { expected, found, name }
                && expected == self@.height && found == mask@.cells.len() && name@
                == "filter mask"@,
    {
        if mask.len() != self.height {
            return Err(
                AxionError::MismatchedLengths {
                    expected: self.height,
                    found: mask.len(),
                    name: String::from_str("filter mask"),
                },
            );
        }
        proof {
            assert forall|i: int| 0 <= i < self.columns@.len() implies (
            #[trigger] self.columns@[i]).wf() && self.columns@[i]@.cells.len()
                == mask@.cells.len() by {
                assert(self@.columns[i] == self.columns@[i]@);
            }
        }
        let cols = par_filter_columns(&self.columns, mask);
        let height: usize = if cols.len() == 0 {
            0
        } else {
            cols[0].len()
        };
        let df = DataFrame { height, columns: cols };
        proof {
            assert forall|k: int| 0 <= k < self@.columns.len() implies (
            #[trigger] df@.columns[k]).cells == filter_model(
                self@.columns[k].cells,
                mask@.cells,
            ) && df@.columns[k].name == self@.columns[k].name && df@.columns[k].dtype
                == self@.columns[k].dtype && !df@.columns[k].sorted_asc
                && !df@.columns[k].sorted_desc && series_wf(df@.columns[k]) by {
                assert(df@.columns[k] == cols@[k]@);
                assert(self@.columns[k] == self.columns@[k]@);
            }
            assert forall|k: int| 0 <= k < df@.columns.len() implies (
            #[trigger] df@.columns[k]).cells.len() == df@.height by {
                assert(df@.columns[k] == cols@[k]@);
                lemma_filter_len_agree(
                    self@.columns[k].cells,
                    self@.columns[0].cells,
                    mask@.cells,
                    self@.height,
                );
            }
            assert forall|p: int, q: int|
                0 <= p < q < df@.columns.len() implies (#[trigger] df@.columns[p]).name != (
            #[trigger] df@.columns[q]).name by {
                assert(df@.columns[p] == cols@[p]@ && df@.columns[q] == cols@[q]@);
                assert(self@.columns[p].name != self@.columns[q].name);
            }
        }
        Ok(df)
    }
}

} // verus!
