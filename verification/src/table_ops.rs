//! Structural table operations: adding, dropping and renaming columns,
//! row and column subsetting, and masked filtering.

use vstd::prelude::*;
use crate::dtype::{DataType, dtype_eq};
use crate::error::{AxionError, AxionResult};
use crate::scalar::ScalarV;
use crate::series::{Series, SeriesV, series_wf};
use crate::strutil::str_eq;
use crate::table::{
    DataFrame, DataFrameV, col_views, first_height, equal_heights, distinct_names, find_col,
    has_col, lemma_find_col, lemma_find_col_at,
};
use crate::transform::{filter_model, filter_prefix, slice_bounds};

verus! {

/// The columns that survive dropping a name, among the first `n`.
pub open spec fn drop_prefix(cols: Seq<SeriesV>, name: Seq<char>, n: int) -> Seq<SeriesV>
    decreases n,
{
    if n <= 0 {
        Seq::empty()
    } else {
        let rest = drop_prefix(cols, name, n - 1);
        if cols[n - 1].name == name {
            rest
        } else {
            rest.push(cols[n - 1])
        }
    }
}

/// Every survivor of the drop was among the columns, at a position that
/// respects the order.
pub proof fn lemma_drop_prefix_props(cols: Seq<SeriesV>, name: Seq<char>, n: int)
    requires
        0 <= n <= cols.len(),
    ensures
        forall|k: int|
            0 <= k < drop_prefix(cols, name, n).len() ==> exists|i: int|
                0 <= i < n && #[trigger] drop_prefix(cols, name, n)[k] == cols[i],
        forall|k: int|
            0 <= k < drop_prefix(cols, name, n).len() ==> (#[trigger] drop_prefix(
                cols,
                name,
                n,
            )[k]).name != name,
        drop_prefix(cols, name, n).len() <= n,
    decreases n,
{
    if n > 0 {
        lemma_drop_prefix_props(cols, name, n - 1);
        let rest = drop_prefix(cols, name, n - 1);
        let full = drop_prefix(cols, name, n);
        assert forall|k: int| 0 <= k < full.len() implies (exists|i: int|
            0 <= i < n && #[trigger] full[k] == cols[i]) && full[k].name != name by {
            if k < rest.len() {
                assert(full[k] == rest[k]);
                let i = choose|i: int| 0 <= i < n - 1 && rest[k] == cols[i];
                assert(full[k] == cols[i]);
            } else {
                assert(full[k] == cols[n - 1]);
            }
        }
    }
}

/// Dropping a name from distinctly-named columns leaves distinctly-named
/// columns.
pub proof fn lemma_drop_prefix_distinct(cols: Seq<SeriesV>, name: Seq<char>, n: int)
    requires
        0 <= n <= cols.len(),
        distinct_names(cols),
    ensures
        distinct_names(drop_prefix(cols, name, n)),
    decreases n,
{
    if n > 0 {
        lemma_drop_prefix_distinct(cols, name, n - 1);
        lemma_drop_prefix_props(cols, name, n - 1);
        let rest = drop_prefix(cols, name, n - 1);
        let full = drop_prefix(cols, name, n);
        if cols[n - 1].name != name {
            assert forall|i: int, j: int|
                0 <= i < j < full.len() implies (#[trigger] full[i]).name != (
            #[trigger] full[j]).name by {
                if j < rest.len() {
                    assert(full[i] == rest[i] && full[j] == rest[j]);
                } else {
                    assert(full[i] == rest[i] && full[j] == cols[n - 1]);
                    let p = choose|p: int| 0 <= p < n - 1 && rest[i] == cols[p];
                    assert(cols[p].name != cols[n - 1].name);
                }
            }
        }
    }
}

impl DataFrame {
    /// Appends a column. A table still without columns takes its row
    /// count from the new column; otherwise the lengths must agree, and
    /// the name must be new. On failure the table is unchanged.
    pub fn add_column(&mut self, series: Series) -> (r: AxionResult<()>)
        requires
            old(self).wf(),
            series.wf(),
        ensures
            r is Ok <==> ((old(self)@.columns.len() == 0 || series@.cells.len()
                == old(self)@.height) && !has_col(old(self)@.columns, series@.name)),
            r is Ok ==> {
                &&& final(self)@.columns == old(self)@.columns.push(series@)
                &&& final(self)@.height == (if old(self)@.columns.len() == 0 {
                    series@.cells.len() as int
                } else {
                    old(self)@.height
                })
                &&& final(self).wf()
            },
            r is Err ==> final(self)@ == old(self)@ && final(self).wf(),
            r matches Err(e) ==> (e matches AxionError::MismatchedLengths {
                expected,
                found,
                name,
            } && old(self)@.columns.len() > 0 && expected == old(self)@.height && found
                == series@.cells.len() && found != expected && name@ == series@.name) || (e matches
            AxionError::DuplicateColumnName(nm) && nm@ == series@.name && has_col(
                old(self)@.columns,
                series@.name,
            )),
    {
        proof {
            lemma_find_col(self@.columns, series@.name);
        }
        if self.columns.len() == 0 {
            self.height = series.len();
        } else if series.len() != self.height {
            return Err(
                AxionError::MismatchedLengths {
                    expected: self.height,
                    found: series.len(),
                    name: String::from_str(series.name()),
                },
            );
        }
        // reject a name that is already taken
        let n = self.columns.len();
        let mut i: usize = 0;
        while i < n
            invariant
                0 <= i <= n,
                n == self@.columns.len(),
                old(self).wf(),
                series.wf(),
                self@.columns == old(self)@.columns,
                old(self)@.columns.len() == 0 || series@.cells.len() == old(self)@.height,
                self@.height == (if old(self)@.columns.len() == 0 {
                    series@.cells.len() as int
                } else {
                    old(self)@.height
                }),
                forall|k: int| 0 <= k < i ==> (#[trigger] self@.columns[k]).name != series@.name,
            decreases n - i,
        {
            proof {
                assert(self@.columns[i as int] == self.columns@[i as int]@);
            }
            if str_eq(self.columns[i].name(), series.name()) {
                proof {
                    lemma_find_col_at(self@.columns, series@.name, i as int);
                }
                return Err(AxionError::DuplicateColumnName(String::from_str(series.name())));
            }
            i = i + 1;
        }
        self.columns.push(series);
        proof {
            lemma_find_col(old(self)@.columns, series@.name);
            assert(self@.columns =~= old(self)@.columns.push(series@));
            assert forall|p: int, q: int|
                0 <= p < q < self@.columns.len() implies (#[trigger] self@.columns[p]).name != (
            #[trigger] self@.columns[q]).name by {
                if q < old(self)@.columns.len() {
                    assert(self@.columns[p] == old(self)@.columns[p]);
                    assert(self@.columns[q] == old(self)@.columns[q]);
                }
            }
        }
        Ok(())
    }

    /// Removes the column of the given name and hands it back; the last
    /// column's removal resets the row count to zero. On failure the
    /// table is unchanged.
    pub fn drop_column(&mut self, name: &str) -> (r: AxionResult<Series>)
        requires
            old(self).wf(),
        ensures
            r is Ok <==> has_col(old(self)@.columns, name@),
            r matches Ok(c) ==> find_col(old(self)@.columns, name@) matches Some(i) && {
                &&& c@ == old(self)@.columns[i]
                &&& final(self)@.columns == old(self)@.columns.remove(i)
                &&& final(self)@.height == (if old(self)@.columns.len() == 1 {
                    0
                } else {
                    old(self)@.height
                })
                &&& final(self).wf()
            },
            r matches Err(e) ==> e matches AxionError::ColumnNotFound(nm) && nm@ == name@
                && final(self)@ == old(self)@ && final(self).wf(),
    {
        proof {
            lemma_find_col(self@.columns, name@);
        }
        let n = self.columns.len();
        let mut i: usize = 0;
        while i < n
            invariant
                0 <= i <= n,
                n == self@.columns.len(),
                old(self).wf(),
                self@ == old(self)@,
                forall|k: int| 0 <= k < i ==> (#[trigger] self@.columns[k]).name != name@,
            decreases n - i,
        {
            proof {
                assert(self@.columns[i as int] == self.columns@[i as int]@);
            }
            if str_eq(self.columns[i].name(), name) {
                proof {
                    lemma_find_col_at(self@.columns, name@, i as int);
                }
                let removed = self.columns.remove(i);
                if self.columns.len() == 0 {
                    self.height = 0;
                }
                proof {
                    assert(self@.columns =~= old(self)@.columns.remove(i as int));
                    assert forall|p: int, q: int|
                        0 <= p < q < self@.columns.len() implies (
                    #[trigger] self@.columns[p]).name != (#[trigger] self@.columns[q]).name by {
                        let p0 = if p < i {
                            p
                        } else {
                            p + 1
                        };
                        let q0 = if q < i {
                            q
                        } else {
                            q + 1
                        };
                        assert(self@.columns[p] == old(self)@.columns[p0]);
                        assert(self@.columns[q] == old(self)@.columns[q0]);
                    }
                    assert forall|k: int| 0 <= k < self@.columns.len() implies series_wf(
                        #[trigger] self@.columns[k],
                    ) && self@.columns[k].cells.len() == self@.height by {
                        let k0 = if k < i {
                            k
                        } else {
                            k + 1
                        };
                        assert(self@.columns[k] == old(self)@.columns[k0]);
                    }
                }
                return Ok(removed);
            }
            i = i + 1;
        }
        proof {
            lemma_find_col(self@.columns, name@);
        }
        Err(AxionError::ColumnNotFound(String::from_str(name)))
    }

    /// Renames a column. Renaming a name to itself is a no-op; the old
    /// name must exist and the new one must be free. On failure the table
    /// is unchanged.
    pub fn rename_column(&mut self, old_name: &str, new_name: &str) -> (r: AxionResult<()>)
        requires
            old(self).wf(),
        ensures
            final(self).wf(),
            old_name@ == new_name@ ==> r is Ok && final(self)@ == old(self)@,
            old_name@ != new_name@ ==> {
                &&& (r is Ok <==> has_col(old(self)@.columns, old_name@) && !has_col(
                    old(self)@.columns,
                    new_name@,
                ))
                &&& (r is Ok ==> (find_col(old(self)@.columns, old_name@) matches Some(i)
                    && final(self)@.columns == old(self)@.columns.update(
                    i,
                    (SeriesV { name: new_name@, ..old(self)@.columns[i] }),
                ) && final(self)@.height == old(self)@.height))
                &&& (r is Err ==> final(self)@ == old(self)@)
                &&& (r matches Err(e) ==> (e matches AxionError::ColumnNotFound(nm) && nm@
                    == old_name@ && !has_col(old(self)@.columns, old_name@)) || (e matches
                AxionError::DuplicateColumnName(nm) && nm@ == new_name@ && has_col(
                    old(self)@.columns,
                    new_name@,
                )))
            },
    {
        if str_eq(old_name, new_name) {
            return Ok(());
        }
        proof {
            lemma_find_col(self@.columns, old_name@);
            lemma_find_col(self@.columns, new_name@);
        }
        // the new name must not be taken
        let n = self.columns.len();
        let mut i: usize = 0;
        while i < n
            invariant
                0 <= i <= n,
                n == self@.columns.len(),
                old(self).wf(),
                old_name@ != new_name@,
                self@ == old(self)@,
                forall|k: int| 0 <= k < i ==> (#[trigger] self@.columns[k]).name != new_name@,
            decreases n - i,
        {
            proof {
                assert(self@.columns[i as int] == self.columns@[i as int]@);
            }
            if str_eq(self.columns[i].name(), new_name) {
                proof {
                    lemma_find_col_at(self@.columns, new_name@, i as int);
                }
                return Err(AxionError::DuplicateColumnName(String::from_str(new_name)));
            }
            i = i + 1;
        }
        // find the column to rename
        proof {
            lemma_find_col(self@.columns, new_name@);
        }
        let mut i: usize = 0;
        while i < n
            invariant
                0 <= i <= n,
                n == self@.columns.len(),
                old(self).wf(),
                old_name@ != new_name@,
                self@ == old(self)@,
                !has_col(old(self)@.columns, new_name@),
                forall|k: int| 0 <= k < n ==> (#[trigger] self@.columns[k]).name != new_name@,
                forall|k: int| 0 <= k < i ==> (#[trigger] self@.columns[k]).name != old_name@,
            decreases n - i,
        {
            proof {
                assert(self@.columns[i as int] == self.columns@[i as int]@);
            }
            if str_eq(self.columns[i].name(), old_name) {
                proof {
                    lemma_find_col_at(self@.columns, old_name@, i as int);
                }
                let col = &mut self.columns[i];
                col.rename(String::from_str(new_name));
                proof {
                    assert(self@.columns =~= old(self)@.columns.update(
                        i as int,
                        (SeriesV { name: new_name@, ..old(self)@.columns[i as int] }),
                    ));
                    assert forall|p: int, q: int|
                        0 <= p < q < self@.columns.len() implies (
                    #[trigger] self@.columns[p]).name != (#[trigger] self@.columns[q]).name by {
                        assert(old(self)@.columns[p].name != old(self)@.columns[q].name);
                    }
                }
                return Ok(());
            }
            i = i + 1;
        }
        proof {
            lemma_find_col(self@.columns, old_name@);
        }
        Err(AxionError::ColumnNotFound(String::from_str(old_name)))
    }

    /// The first `n` rows (all of them when `n` reaches the height).
    pub fn head(&self, n: usize) -> (r: DataFrame)
        requires
            self.wf(),
        ensures
            r.wf(),
            r@.columns.len() == self@.columns.len(),
            r@.height == (if n < self@.height {
                n as int
            } else {
                self@.height
            }),
            forall|i: int|
                0 <= i < self@.columns.len() ==> (#[trigger] r@.columns[i]) == (SeriesV {
                    cells: self@.columns[i].cells.subrange(0, r@.height),
                    sorted_asc: r@.columns[i].sorted_asc,
                    sorted_desc: r@.columns[i].sorted_desc,
                    ..self@.columns[i]
                }),
    {
        let m: usize = if n < self.height {
            n
        } else {
            self.height
        };
        let count = self.columns.len();
        let mut cols: Vec<Series> = Vec::new();
        let mut i: usize = 0;
        while i < count
            invariant
                0 <= i <= count,
                count == self@.columns.len(),
                self.wf(),
                m <= self@.height,
                cols@.len() == i,
                forall|k: int|
                    0 <= k < i ==> (#[trigger] cols@[k])@.cells == self@.columns[k].cells.subrange(
                        0,
                        m as int,
                    ) && cols@[k]@.name == self@.columns[k].name && cols@[k]@.dtype
                        == self@.columns[k].dtype && series_wf(cols@[k]@),
            decreases count - i,
        {
            proof {
                assert(self@.columns[i as int] == self.columns@[i as int]@);
            }
            cols.push(self.columns[i].slice(0, m));
            i = i + 1;
        }
        let r = DataFrame { height: m, columns: cols };
        proof {
            assert forall|i: int| 0 <= i < self@.columns.len() implies (#[trigger] r@.columns[i])
                == (SeriesV {
                cells: self@.columns[i].cells.subrange(0, r@.height),
                sorted_asc: r@.columns[i].sorted_asc,
                sorted_desc: r@.columns[i].sorted_desc,
                ..self@.columns[i]
            }) by {
                assert(r@.columns[i] == cols@[i]@);
            }
        }
        r
    }

    /// The last `n` rows (all of them when `n` reaches the height).
    pub fn tail(&self, n: usize) -> (r: DataFrame)
        requires
            self.wf(),
        ensures
            r.wf(),
            r@.columns.len() == self@.columns.len(),
            r@.height == (if n < self@.height {
                n as int
            } else {
                self@.height
            }),
            forall|i: int|
                0 <= i < self@.columns.len() ==> (#[trigger] r@.columns[i]).cells
                    == self@.columns[i].cells.subrange(
                    self@.height - r@.height,
                    self@.height,
                ) && r@.columns[i].name == self@.columns[i].name && r@.columns[i].dtype
                    == self@.columns[i].dtype,
    {
        let m: usize = if n < self.height {
            n
        } else {
            self.height
        };
        let offset = self.height - m;
        let count = self.columns.len();
        let mut cols: Vec<Series> = Vec::new();
        let mut i: usize = 0;
        while i < count
            invariant
                0 <= i <= count,
                count == self@.columns.len(),
                self.wf(),
                m <= self@.height,
                offset == self@.height - m,
                cols@.len() == i,
                forall|k: int|
                    0 <= k < i ==> (#[trigger] cols@[k])@.cells == self@.columns[k].cells.subrange(
                        offset as int,
                        self@.height,
                    ) && cols@[k]@.name == self@.columns[k].name && cols@[k]@.dtype
                        == self@.columns[k].dtype && series_wf(cols@[k]@),
            decreases count - i,
        {
            proof {
                assert(self@.columns[i as int] == self.columns@[i as int]@);
            }
            cols.push(self.columns[i].slice(offset, m));
            i = i + 1;
        }
        let r = DataFrame { height: m, columns: cols };
        proof {
            assert forall|i: int| 0 <= i < r@.columns.len() implies r@.columns[i] == cols@[i]@ by {}
        }
        r
    }

    /// A new table of the named columns, in the requested order; an
    /// unknown name or a repeated selection is an error.
    pub fn select(&self, names: &Vec<String>) -> (r: AxionResult<DataFrame>)
        requires
            self.wf(),
        ensures
            r matches Ok(df) ==> {
                &&& df.wf()
                &&& df@.columns.len() == names.deep_view().len()
                &&& (forall|k: int|
                    0 <= k < names.deep_view().len() ==> (find_col(
                        self@.columns,
                        #[trigger] names.deep_view()[k],
                    ) matches Some(i) && df@.columns[k] == self@.columns[i]))
            },
            r is Ok <==> (forall|k: int|
                0 <= k < names.deep_view().len() ==> has_col(
                    self@.columns,
                    #[trigger] names.deep_view()[k],
                )) && (forall|p: int, q: int|
                0 <= p < q < names.deep_view().len() ==> names.deep_view()[p]
                    != names.deep_view()[q]),
    {
        let n = names.len();
        let mut cols: Vec<Series> = Vec::new();
        let mut k: usize = 0;
        while k < n
            invariant
                0 <= k <= n,
                n == names.deep_view().len(),
                self.wf(),
                cols@.len() == k,
                forall|j: int|
                    0 <= j < k ==> has_col(self@.columns, #[trigger] names.deep_view()[j]),
                forall|j: int|
                    0 <= j < k ==> (find_col(self@.columns, #[trigger] names.deep_view()[j]) matches
                        Some(i) && cols@[j]@ == self@.columns[i]),
            decreases n - k,
        {
            proof {
                assert(names.deep_view()[k as int] == names@[k as int]@);
            }
            let col = match self.column(names[k].as_str()) {
                Ok(c) => c,
                Err(e) => {
                    return Err(e);
                },
            };
            cols.push(col.clone());
            k = k + 1;
        }
        let ghost views = col_views(cols@);
        proof {
            lemma_find_col(self@.columns, names.deep_view()[0]);
            assert forall|j: int| 0 <= j < n implies (#[trigger] views[j]).cells.len()
                == self@.height && series_wf(views[j]) by {
                assert(views[j] == cols@[j]@);
                let i = choose|i: int| find_col(self@.columns, names.deep_view()[j]) == Some(i);
                lemma_find_col(self@.columns, names.deep_view()[j]);
                assert(cols@[j]@ == self@.columns[i]);
            }
            assert forall|j: int| 0 <= j < n implies (#[trigger] views[j]).name
                == names.deep_view()[j] by {
                assert(views[j] == cols@[j]@);
                let i = choose|i: int| find_col(self@.columns, names.deep_view()[j]) == Some(i);
                lemma_find_col(self@.columns, names.deep_view()[j]);
            }
            assert(equal_heights(views));
            assert forall|j: int| 0 <= j < cols@.len() implies (#[trigger] cols@[j]).wf() by {
                assert(series_wf(views[j]));
                assert(cols@[j]@ == views[j]);
            }
        }
        let df = match DataFrame::new(cols) {
            Ok(df) => df,
            Err(e) => {
                proof {
                    assert(!distinct_names(views));
                    let (p, q) = choose|p: int, q: int|
                        0 <= p < q < views.len() && views[p].name == views[q].name;
                    assert(names.deep_view()[p] == names.deep_view()[q]);
                }
                return Err(e);
            },
        };
        proof {
            assert forall|p: int, q: int|
                0 <= p < q < names.deep_view().len() implies names.deep_view()[p]
                != names.deep_view()[q] by {
                assert(views[p].name == names.deep_view()[p]);
                assert(views[q].name == names.deep_view()[q]);
                assert(distinct_names(views));
            }
            assert forall|k: int| 0 <= k < names.deep_view().len() implies find_col(
                self@.columns,
                #[trigger] names.deep_view()[k],
            ) matches Some(i) && df@.columns[k] == self@.columns[i] by {
                assert(df@.columns[k] == views[k]);
            }
        }
        Ok(df)
    }

    /// A new table without the named column; the name must exist.
    pub fn drop(&self, name_to_drop: &str) -> (r: AxionResult<DataFrame>)
        requires
            self.wf(),
        ensures
            r is Ok <==> has_col(self@.columns, name_to_drop@),
            r matches Ok(df) ==> {
                &&& df.wf()
                &&& df@.columns == drop_prefix(
                    self@.columns,
                    name_to_drop@,
                    self@.columns.len() as int,
                )
                &&& df@.height == (if df@.columns.len() == 0 {
                    0
                } else {
                    self@.height
                })
            },
            r matches Err(e) ==> e matches AxionError::ColumnNotFound(nm) && nm@ == name_to_drop@,
    {
        proof {
            lemma_find_col(self@.columns, name_to_drop@);
        }
        let found = match self.column(name_to_drop) {
            Ok(_) => true,
            Err(e) => {
                return Err(e);
            },
        };
        let n = self.columns.len();
        let mut cols: Vec<Series> = Vec::new();
        let mut i: usize = 0;
        while i < n
            invariant
                0 <= i <= n,
                n == self@.columns.len(),
                self.wf(),
                col_views(cols@) == drop_prefix(self@.columns, name_to_drop@, i as int),
            decreases n - i,
        {
            proof {
                assert(self@.columns[i as int] == self.columns@[i as int]@);
            }
            if !str_eq(self.columns[i].name(), name_to_drop) {
                cols.push(self.columns[i].clone());
            }
            proof {
                assert(col_views(cols@) =~= drop_prefix(
                    self@.columns,
                    name_to_drop@,
                    i as int + 1,
                ));
            }
            i = i + 1;
        }
        let ghost views = col_views(cols@);
        proof {
            lemma_drop_prefix_props(self@.columns, name_to_drop@, n as int);
            lemma_drop_prefix_distinct(self@.columns, name_to_drop@, n as int);
            assert forall|k: int| 0 <= k < views.len() implies (#[trigger] views[k]).cells.len()
                == self@.height && series_wf(views[k]) by {
                let i = choose|i: int| 0 <= i < n && views[k] == self@.columns[i];
            }
        }
        let height: usize = if cols.len() == 0 {
            0
        } else {
            self.height
        };
        let df = DataFrame { height, columns: cols };
        Ok(df)
    }

    /// Keeps the rows whose mask entry is `true`, applying the same mask
    /// to every column; the mask must be as long as the table is high.
    pub fn filter(&self, mask: &Series) -> (r: AxionResult<DataFrame>)
        requires
            self.wf(),
        ensures
            r is Ok <==> mask@.cells.len() == self@.height,
            r matches Ok(df) ==> {
                &&& df.wf()
                &&& df@.columns.len() == self@.columns.len()
                &&& (forall|i: int|
                    0 <= i < self@.columns.len() ==> (#[trigger] df@.columns[i]).cells
                        == filter_model((#[trigger] self@.columns[i]).cells, mask@.cells)
                        && df@.columns[i].name == self@.columns[i].name && df@.columns[i].dtype
                        == self@.columns[i].dtype && !df@.columns[i].sorted_asc
                        && !df@.columns[i].sorted_desc)
                &&& df@.height == (if self@.columns.len() == 0 {
                    0
                } else {
                    filter_model(self@.columns[0].cells, mask@.cells).len() as int
                })
            },
            r matches Err(e) ==> e matches AxionError::MismatchedLengths { expected, found, name }
                && expected == self@.height && found == mask@.cells.len() && name@
                == "filter mask"@,
    {
        if mask.len() != self.height {
            return Err(
                AxionError::MismatchedLengths {
                    expected: self.height,
                    found: mask.len(),
                    name: String::from_str("filter mask"),
                },
            );
        }
        let n = self.columns.len();
        let mut cols: Vec<Series> = Vec::new();
        let mut i: usize = 0;
        while i < n
            invariant
                0 <= i <= n,
                n == self@.columns.len(),
                self.wf(),
                mask@.cells.len() == self@.height,
                cols@.len() == i,
                forall|k: int|
                    0 <= k < i ==> (#[trigger] cols@[k])@.cells == filter_model(
                        self@.columns[k].cells,
                        mask@.cells,
                    ) && cols@[k]@.name == self@.columns[k].name && cols@[k]@.dtype
                        == self@.columns[k].dtype && !cols@[k]@.sorted_asc
                        && !cols@[k]@.sorted_desc && series_wf(cols@[k]@),
            decreases n - i,
        {
            proof {
                assert(self@.columns[i as int] == self.columns@[i as int]@);
            }
            cols.push(self.columns[i].filter(mask));
            i = i + 1;
        }
        let height: usize = if cols.len() == 0 {
            0
        } else {
            cols[0].len()
        };
        let df = DataFrame { height, columns: cols };
        proof {
            assert forall|k: int| 0 <= k < n implies (#[trigger] df@.columns[k]).cells.len()
                == df@.height by {
                assert(df@.columns[k] == cols@[k]@);
                lemma_filter_len_agree(
                    self@.columns[k].cells,
                    self@.columns[0].cells,
                    mask@.cells,
                    self@.height,
                );
            }
            assert forall|p: int, q: int|
                0 <= p < q < df@.columns.len() implies (#[trigger] df@.columns[p]).name != (
            #[trigger] df@.columns[q]).name by {
                assert(df@.columns[p] == cols@[p]@ && df@.columns[q] == cols@[q]@);
                assert(self@.columns[p].name != self@.columns[q].name);
            }
        }
        Ok(df)
    }
}

/// The filter keeps the same number of rows in every column: its length
/// depends only on the mask.
pub proof fn lemma_filter_len_agree(
    c1: Seq<Option<ScalarV>>,
    c2: Seq<Option<ScalarV>>,
    mask: Seq<Option<ScalarV>>,
    n: int,
)
    requires
        c1.len() == n,
        c2.len() == n,
    ensures
        filter_model(c1, mask).len() == filter_model(c2, mask).len(),
{
    lemma_filter_prefix_len_agree(c1, c2, mask, n);
}

proof fn lemma_filter_prefix_len_agree(
    c1: Seq<Option<ScalarV>>,
    c2: Seq<Option<ScalarV>>,
    mask: Seq<Option<ScalarV>>,
    n: int,
)
    ensures
        filter_prefix(c1, mask, n).len() == filter_prefix(c2, mask, n).len(),
    decreases n,
{
    if n > 0 {
        lemma_filter_prefix_len_agree(c1, c2, mask, n - 1);
    }
}

} // verus!
