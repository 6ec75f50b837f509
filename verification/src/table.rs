//! The table: an ordered collection of equal-length columns with pairwise
//! distinct names. Every mutating entry point re-validates the touched
//! invariant.

use vstd::prelude::*;
use crate::dtype::{DataType, dtype_eq};
use crate::error::{AxionError, AxionResult};
use crate::scalar::ScalarV;
use crate::series::{Series, SeriesV, series_wf};
use crate::strutil::str_eq;

verus! {

/// The views of a list of columns.
pub open spec fn col_views(cols: Seq<Series>) -> Seq<SeriesV> {
    Seq::new(cols.len(), |i: int| cols[i]@)
}

/// The row count every column must share: that of the first column, or
/// zero when there is none.
pub open spec fn first_height(cols: Seq<SeriesV>) -> int {
    if cols.len() == 0 {
        0
    } else {
        cols[0].cells.len() as int
    }
}

/// Every column is as long as the first.
pub open spec fn equal_heights(cols: Seq<SeriesV>) -> bool {
    forall|i: int| 0 <= i < cols.len() ==> (#[trigger] cols[i]).cells.len() == first_height(cols)
}

/// No two columns share a name.
pub open spec fn distinct_names(cols: Seq<SeriesV>) -> bool {
    forall|i: int, j: int|
        0 <= i < j < cols.len() ==> (#[trigger] cols[i]).name != (#[trigger] cols[j]).name
}

/// The position of the first column of the given name.
pub open spec fn find_col(cols: Seq<SeriesV>, name: Seq<char>) -> Option<int>
    decreases cols.len(),
{
    if cols.len() == 0 {
        None
    } else if cols[0].name == name {
        Some(0)
    } else {
        match find_col(cols.drop_first(), name) {
            Some(i) => Some(i + 1),
            None => None,
        }
    }
}

/// Whether some column carries the given name.
pub open spec fn has_col(cols: Seq<SeriesV>, name: Seq<char>) -> bool {
    find_col(cols, name) is Some
}

/// `find_col` names the first match, and `None` means no match.
pub proof fn lemma_find_col(cols: Seq<SeriesV>, name: Seq<char>)
    ensures
        match find_col(cols, name) {
            Some(i) => 0 <= i < cols.len() && cols[i].name == name && (forall|j: int|
                0 <= j < i ==> (#[trigger] cols[j]).name != name),
            None => forall|j: int| 0 <= j < cols.len() ==> (#[trigger] cols[j]).name != name,
        },
    decreases cols.len(),
{
    if cols.len() > 0 && cols[0].name != name {
        lemma_find_col(cols.drop_first(), name);
        match find_col(cols.drop_first(), name) {
            Some(i) => {
                assert(cols.drop_first()[i] == cols[i + 1]);
                assert forall|j: int| 0 <= j < i + 1 implies (#[trigger] cols[j]).name != name by {
                    if j > 0 {
                        assert(cols.drop_first()[j - 1] == cols[j]);
                    }
                }
            },
            None => {
                assert forall|j: int| 0 <= j < cols.len() implies (#[trigger] cols[j]).name
                    != name by {
                    if j > 0 {
                        assert(cols.drop_first()[j - 1] == cols[j]);
                    }
                }
            },
        }
    }
}

/// A search that stopped at `k` pins `find_col` down.
pub proof fn lemma_find_col_at(cols: Seq<SeriesV>, name: Seq<char>, k: int)
    requires
        0 <= k < cols.len(),
        cols[k].name == name,
        forall|j: int| 0 <= j < k ==> (#[trigger] cols[j]).name != name,
    ensures
        find_col(cols, name) == Some(k),
{
    lemma_find_col(cols, name);
    match find_col(cols, name) {
        Some(i) => {
            if i < k {
            } else if i > k {
            }
        },
        None => {},
    }
}

/// A column carrying the name anywhere means the name is found.
pub proof fn lemma_find_col_at_any(cols: Seq<SeriesV>, name: Seq<char>, p: int)
    requires
        0 <= p < cols.len(),
        cols[p].name == name,
    ensures
        has_col(cols, name),
{
    lemma_find_col(cols, name);
}

/// The mathematical model of a table.
#[verifier::ext_equal]
pub struct DataFrameV {
    pub height: int,
    pub columns: Seq<SeriesV>,
}

/// A two-dimensional table of named, equal-length, nullable columns.
#[derive(Debug)]
pub struct DataFrame {
    pub(crate) height: usize,
    pub(crate) columns: Vec<Series>,
}

impl View for DataFrame {
    type V = DataFrameV;

    open(crate) spec fn view(&self) -> DataFrameV {
        DataFrameV { height: self.height as int, columns: col_views(self.columns@) }
    }
}

impl DataFrame {
    /// The table invariant: every column is well formed and as long as
    /// the table is high, names are pairwise distinct, and a table
    /// without columns has no rows.
    pub open spec fn wf(&self) -> bool {
        &&& (forall|i: int|
            0 <= i < self@.columns.len() ==> series_wf(#[trigger] self@.columns[i]))
        &&& (forall|i: int|
            0 <= i < self@.columns.len() ==> (#[trigger] self@.columns[i]).cells.len()
                == self@.height)
        &&& distinct_names(self@.columns)
        &&& (self@.columns.len() == 0 ==> self@.height == 0)
    }

    /// Builds a table from columns, validating that all lengths agree
    /// and that no name repeats.
    pub fn new(columns: Vec<Series>) -> (r: AxionResult<DataFrame>)
        requires
            forall|i: int| 0 <= i < columns@.len() ==> (#[trigger] columns@[i]).wf(),
        ensures
            r is Ok <==> equal_heights(col_views(columns@)) && distinct_names(col_views(columns@)),
            r matches Ok(df) ==> {
                &&& df@.columns == col_views(columns@)
                &&& df@.height == first_height(col_views(columns@))
                &&& df.wf()
            },
            !equal_heights(col_views(columns@)) && distinct_names(col_views(columns@)) ==> (
            r matches Err(e) && e matches
                AxionError::MismatchedLengths { expected, found, name }
                && expected == first_height(col_views(columns@)) && (exists|i: int|
                0 <= i < col_views(columns@).len() && (#[trigger] col_views(columns@)[i]).name
                    == name@ && col_views(columns@)[i].cells.len() == found) && found != expected),
            equal_heights(col_views(columns@)) && !distinct_names(col_views(columns@)) ==> (
            r matches Err(e) && e matches AxionError::DuplicateColumnName(nm) && (exists|
            i: int,
            j: int,
            |
                0 <= i < j < col_views(columns@).len() && (#[trigger] col_views(columns@)[i]).name
                    == nm@ && (#[trigger] col_views(columns@)[j]).name == nm@)),
    {
        let ghost views = col_views(columns@);
        let n = columns.len();
        let height: usize = if n == 0 {
            0
        } else {
            columns[0].len()
        };
        proof {
            assert(height as int == first_height(views));
        }
        let mut i: usize = 0;
        while i < n
            invariant
                0 <= i <= n,
                n == columns@.len(),
                views == col_views(columns@),
                height as int == first_height(views),
                forall|k: int| 0 <= k < n ==> (#[trigger] columns@[k]).wf(),
                forall|k: int| 0 <= k < i ==> (#[trigger] views[k]).cells.len() == height,
                forall|p: int, q: int|
                    0 <= p < q < i ==> (#[trigger] views[p]).name != (#[trigger] views[q]).name,
            decreases n - i,
        {
            let col = &columns[i];
            proof {
                assert(views[i as int] == col@);
            }
            if col.len() != height {
                proof {
                    assert(!equal_heights(views)) by {
                        if equal_heights(views) {
                            assert(views[i as int].cells.len() == first_height(views));
                        }
                    }
                }
                return Err(
                    AxionError::MismatchedLengths {
                        expected: height,
                        found: col.len(),
                        name: String::from_str(col.name()),
                    },
                );
            }
            let mut j: usize = 0;
            while j < i
                invariant
                    0 <= j <= i < n,
                    n == columns@.len(),
                    views == col_views(columns@),
                    forall|k: int| 0 <= k < j ==> (#[trigger] views[k]).name != views[i as int].name,
                decreases i - j,
            {
                proof {
                    assert(views[j as int] == columns@[j as int]@);
                }
                if str_eq(columns[j].name(), columns[i].name()) {
                    proof {
                        assert(views[j as int].name == views[i as int].name);
                        assert(!distinct_names(views)) by {
                            if distinct_names(views) {
                                assert(views[j as int].name != views[i as int].name);
                            }
                        }
                    }
                    return Err(
                        AxionError::DuplicateColumnName(String::from_str(columns[i].name())),
                    );
                }
                j = j + 1;
            }
            i = i + 1;
        }
        let df = DataFrame { height, columns };
        proof {
            assert(df@.columns =~= views);
        }
        Ok(df)
    }

    /// A table with no rows and no columns.
    pub fn new_empty() -> (r: DataFrame)
        ensures
            r@.height == 0,
            r@.columns.len() == 0,
            r.wf(),
    {
        let df = DataFrame { height: 0, columns: Vec::new() };
        proof {
            assert(df@.columns =~= Seq::<SeriesV>::empty());
        }
        df
    }

    /// The shape as (rows, columns).
    pub fn shape(&self) -> (r: (usize, usize))
        ensures
            r.0 == self@.height,
            r.1 == self@.columns.len(),
    {
        (self.height, self.columns.len())
    }

    /// The number of rows.
    pub fn height(&self) -> (r: usize)
        ensures
            r == self@.height,
    {
        self.height
    }

    /// The number of columns.
    pub fn width(&self) -> (r: usize)
        ensures
            r == self@.columns.len(),
    {
        self.columns.len()
    }

    /// Whether the table has no rows or no columns.
    pub fn is_empty(&self) -> (r: bool)
        ensures
            r == (self@.height == 0 || self@.columns.len() == 0),
    {
        self.height == 0 || self.columns.len() == 0
    }

    /// The column names, in column order.
    pub fn columns_names(&self) -> (r: Vec<String>)
        ensures
            r.deep_view().len() == self@.columns.len(),
            forall|i: int|
                0 <= i < self@.columns.len() ==> r.deep_view()[i] == (
                #[trigger] self@.columns[i]).name,
    {
        let n = self.columns.len();
        let mut out: Vec<String> = Vec::new();
        let mut i: usize = 0;
        while i < n
            invariant
                0 <= i <= n,
                n == self@.columns.len(),
                out@.len() == i,
                forall|k: int| 0 <= k < i ==> (#[trigger] out@[k])@ == self@.columns[k].name,
            decreases n - i,
        {
            proof {
                assert(self@.columns[i as int] == self.columns@[i as int]@);
            }
            out.push(String::from_str(self.columns[i].name()));
            i = i + 1;
        }
        out
    }

    /// The column kinds, in column order.
    pub fn dtypes(&self) -> (r: Vec<DataType>)
        ensures
            r@.len() == self@.columns.len(),
            forall|i: int|
                0 <= i < self@.columns.len() ==> r@[i] == (#[trigger] self@.columns[i]).dtype,
    {
        let n = self.columns.len();
        let mut out: Vec<DataType> = Vec::new();
        let mut i: usize = 0;
        while i < n
            invariant
                0 <= i <= n,
                n == self@.columns.len(),
                out@.len() == i,
                forall|k: int| 0 <= k < i ==> #[trigger] out@[k] == self@.columns[k].dtype,
            decreases n - i,
        {
            proof {
                assert(self@.columns[i as int] == self.columns@[i as int]@);
            }
            out.push(self.columns[i].dtype());
            i = i + 1;
        }
        out
    }

    /// The name-to-kind pairs, in column order: exactly the name and kind
    /// projection of the columns.
    pub fn schema(&self) -> (r: Vec<(String, DataType)>)
        ensures
            r@.len() == self@.columns.len(),
            forall|i: int|
                0 <= i < self@.columns.len() ==> (#[trigger] r@[i]).0@ == self@.columns[i].name
                    && r@[i].1 == self@.columns[i].dtype,
    {
        let n = self.columns.len();
        let mut out: Vec<(String, DataType)> = Vec::new();
        let mut i: usize = 0;
        while i < n
            invariant
                0 <= i <= n,
                n == self@.columns.len(),
                out@.len() == i,
                forall|k: int|
                    0 <= k < i ==> (#[trigger] out@[k]).0@ == self@.columns[k].name && out@[k].1
                        == self@.columns[k].dtype,
            decreases n - i,
        {
            proof {
                assert(self@.columns[i as int] == self.columns@[i as int]@);
            }
            out.push((String::from_str(self.columns[i].name()), self.columns[i].dtype()));
            i = i + 1;
        }
        out
    }

    /// A borrow of the first column of the given name, or a not-found
    /// error naming it.
    pub fn column(&self, name: &str) -> (r: AxionResult<&Series>)
        ensures
            r is Ok <==> has_col(self@.columns, name@),
            r matches Ok(c) ==> find_col(self@.columns, name@) matches Some(i) && c@
                == self@.columns[i],
            r matches Err(e) ==> e matches AxionError::ColumnNotFound(nm) && nm@ == name@,
    {
        proof {
            lemma_find_col(self@.columns, name@);
        }
        let n = self.columns.len();
        let mut i: usize = 0;
        while i < n
            invariant
                0 <= i <= n,
                n == self@.columns.len(),
                forall|k: int| 0 <= k < i ==> (#[trigger] self@.columns[k]).name != name@,
            decreases n - i,
        {
            proof {
                assert(self@.columns[i as int] == self.columns@[i as int]@);
            }
            if str_eq(self.columns[i].name(), name) {
                proof {
                    lemma_find_col_at(self@.columns, name@, i as int);
                }
                return Ok(&self.columns[i]);
            }
            i = i + 1;
        }
        Err(AxionError::ColumnNotFound(String::from_str(name)))
    }

    /// A borrow of the column at a position, or a not-found error naming
    /// the position's text.
    pub fn column_at(&self, index: usize) -> (r: AxionResult<&Series>)
        ensures
            r is Ok <==> index < self@.columns.len(),
            r matches Ok(c) ==> c@ == self@.columns[index as int],
            r matches Err(e) ==> e is ColumnNotFound,
    {
        if index < self.columns.len() {
            proof {
                assert(self@.columns[index as int] == self.columns@[index as int]@);
            }
            Ok(&self.columns[index])
        } else {
            let mut msg = String::from_str("index ");
            msg.append(crate::strutil::u64_to_dec(index as u64).as_str());
            Err(AxionError::ColumnNotFound(msg))
        }
    }

    /// Narrows a column by name to an expected kind: the column when its
    /// stored kind tag agrees, a typed mismatch error otherwise.
    pub fn downcast_column(&self, name: &str, expected: DataType) -> (r: AxionResult<&Series>)
        ensures
            r is Ok <==> (has_col(self@.columns, name@) && (find_col(self@.columns, name@) matches
            Some(i) ==> self@.columns[i].dtype == expected)),
            r matches Ok(c) ==> find_col(self@.columns, name@) matches Some(i) && c@
                == self@.columns[i] && c@.dtype == expected,
            r matches Err(e) ==> (e is ColumnNotFound && !has_col(self@.columns, name@)) || (
            e matches AxionError::TypeMismatch { expected: exp, found, name: nm } && exp == expected
                && nm@ == name@ && (find_col(self@.columns, name@) matches Some(i) && found
                == self@.columns[i].dtype && found != expected)),
    {
        let col = match self.column(name) {
            Ok(c) => c,
            Err(e) => {
                return Err(e);
            },
        };
        let found = col.dtype();
        if dtype_eq(&found, &expected) {
            Ok(col)
        } else {
            Err(
                AxionError::TypeMismatch {
                    expected: expected,
                    found: found,
                    name: String::from_str(name),
                },
            )
        }
    }
}

impl Clone for DataFrame {
    /// A value copy, deep for every column.
    fn clone(&self) -> (r: Self)
        ensures
            r@ == self@,
    {
        let n = self.columns.len();
        let mut cols: Vec<Series> = Vec::new();
        let mut i: usize = 0;
        while i < n
            invariant
                0 <= i <= n,
                n == self@.columns.len(),
                cols@.len() == i,
                forall|k: int| 0 <= k < i ==> (#[trigger] cols@[k])@ == self@.columns[k],
            decreases n - i,
        {
            proof {
                assert(self@.columns[i as int] == self.columns@[i as int]@);
            }
            cols.push(self.columns[i].clone());
            i = i + 1;
        }
        let r = DataFrame { height: self.height, columns: cols };
        proof {
            assert(r@.columns =~= self@.columns);
            assert(r@ =~= self@);
        }
        r
    }
}

} // verus!
