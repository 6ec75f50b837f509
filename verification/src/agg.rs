//! The aggregations over a grouping: member counts, saturating sums, and
//! minima and maxima, dispatched on each value column's kind. Output rows
//! follow first-seen key order, keys and aggregates rebuilt in lock-step.

use vstd::prelude::*;
use core::cmp::Ordering;
use crate::dtype::{DataType, dtype_eq};
use crate::error::{AxionError, AxionResult};
use crate::scalar::{Scalar, ScalarV, sv_kind, sv_cmp, scalar_cmp};
use crate::series::{Series, SeriesFlags, SeriesV, series_wf, cell_ok};
use crate::strutil::str_eq;
use crate::table::{DataFrame, col_views, equal_heights, distinct_names, lemma_find_col};
use crate::groupby::{
    GroupBy, GroupByV, groups_upto, row_key, lemma_groups_props, lemma_row_key, kcols_of,
    key_kind_ok, frame_wf_v,
};
use crate::join::key_cells;
use crate::types::{GroupKeyV, GroupKeyValue, sv_to_keyv, keyv_to_sv, keyv_to_scalar};

verus! {

/// A strictly increasing run of rows below `n` has at most `n` members.
proof fn lemma_strict_incr_len(s: Seq<usize>, n: int)
    requires
        0 <= n,
        forall|t: int| 0 <= t < s.len() ==> (#[trigger] s[t]) < n,
        forall|t1: int, t2: int| 0 <= t1 < t2 < s.len() ==> (#[trigger] s[t1]) < (#[trigger] s[t2]),
    ensures
        s.len() <= n,
{
    if s.len() > n {
        assert forall|t: int| 0 <= t < s.len() implies (#[trigger] s[t]) >= t by {
            lemma_strict_incr_ge(s, t);
        }
        assert(s[n] >= n);
        assert(s[n] < n);
    }
}

proof fn lemma_strict_incr_ge(s: Seq<usize>, t: int)
    requires
        0 <= t < s.len(),
        forall|t1: int, t2: int| 0 <= t1 < t2 < s.len() ==> (#[trigger] s[t1]) < (#[trigger] s[t2]),
    ensures
        s[t] >= t,
    decreases t,
{
    if t > 0 {
        lemma_strict_incr_ge(s, t - 1);
        assert(s[t - 1] < s[t]);
    }
}

/// Converting a key value back to a cell undoes the conversion, for the
/// allowed kinds.
proof fn lemma_key_roundtrip(v: ScalarV)
    requires
        key_kind_ok(sv_kind(v)),
    ensures
        keyv_to_sv(sv_to_keyv(v)) == v,
        sv_kind(keyv_to_sv(sv_to_keyv(v))) == sv_kind(v),
{
}

/// Whether a name is one of the grouping keys.
pub open spec fn is_key_name(keys: Seq<Seq<char>>, name: Seq<char>) -> bool {
    exists|k: int| 0 <= k < keys.len() && keys[k] == name
}

/// Which aggregate selects a value column.
pub enum AggSel {
    Sum,
    MinMax,
}

/// Whether a column kind takes part in an aggregate: sums run over the
/// 32-bit integer kinds, minima and maxima over every integer, text and
/// boolean kind.
pub open spec fn sel_ok(sel: AggSel, dt: DataType) -> bool {
    match sel {
        AggSel::Sum => dt == DataType::Int32 || dt == DataType::UInt32,
        AggSel::MinMax => {
            ||| dt == DataType::Int8
            ||| dt == DataType::Int16
            ||| dt == DataType::Int32
            ||| dt == DataType::Int64
            ||| dt == DataType::UInt8
            ||| dt == DataType::UInt16
            ||| dt == DataType::UInt32
            ||| dt == DataType::UInt64
            ||| dt == DataType::String
            ||| dt == DataType::Bool
        },
    }
}

/// The positions of the value columns an aggregate works on: every
/// column that is not a key and whose kind takes part.
pub open spec fn agg_cols_upto(cols: Seq<SeriesV>, keys: Seq<Seq<char>>, sel: AggSel, n: int) -> Seq<
    int,
>
    decreases n,
{
    if n <= 0 {
        Seq::empty()
    } else {
        let rest = agg_cols_upto(cols, keys, sel, n - 1);
        if !is_key_name(keys, cols[n - 1].name) && sel_ok(sel, cols[n - 1].dtype) {
            rest.push(n - 1)
        } else {
            rest
        }
    }
}

/// The selected positions are increasing and in range, and exactly the
/// selectable ones.
proof fn lemma_agg_cols_props(cols: Seq<SeriesV>, keys: Seq<Seq<char>>, sel: AggSel, n: int)
    requires
        n <= cols.len(),
    ensures
        forall|j: int|
            0 <= j < agg_cols_upto(cols, keys, sel, n).len() ==> 0 <= (#[trigger] agg_cols_upto(
                cols,
                keys,
                sel,
                n,
            )[j]) < n,
        forall|j1: int, j2: int|
            0 <= j1 < j2 < agg_cols_upto(cols, keys, sel, n).len() ==> (#[trigger] agg_cols_upto(
                cols,
                keys,
                sel,
                n,
            )[j1]) < (#[trigger] agg_cols_upto(cols, keys, sel, n)[j2]),
        forall|j: int|
            0 <= j < agg_cols_upto(cols, keys, sel, n).len() ==> !is_key_name(
                keys,
                cols[agg_cols_upto(cols, keys, sel, n)[j]].name,
            ) && sel_ok(sel, cols[#[trigger] agg_cols_upto(cols, keys, sel, n)[j]].dtype),
    decreases n,
{
    if n > 0 {
        lemma_agg_cols_props(cols, keys, sel, n - 1);
        let rest = agg_cols_upto(cols, keys, sel, n - 1);
        let full = agg_cols_upto(cols, keys, sel, n);
        assert forall|j: int| 0 <= j < full.len() implies 0 <= (#[trigger] full[j]) < n
            && !is_key_name(keys, cols[full[j]].name) && sel_ok(sel, cols[full[j]].dtype) by {
            if j < rest.len() {
                assert(full[j] == rest[j]);
            } else {
                assert(full[j] == n - 1);
            }
        }
        assert forall|j1: int, j2: int| 0 <= j1 < j2 < full.len() implies (#[trigger] full[j1]) < (
        #[trigger] full[j2]) by {
            if j2 < rest.len() {
                assert(full[j1] == rest[j1] && full[j2] == rest[j2]);
            } else {
                assert(full[j2] == n - 1 && full[j1] == rest[j1]);
            }
        }
    }
}

/// Saturating addition on 32-bit signed integers.
pub open spec fn sat_add_i32(a: i32, b: i32) -> i32 {
    if a + b > i32::MAX {
        i32::MAX
    } else if a + b < i32::MIN {
        i32::MIN
    } else {
        (a + b) as i32
    }
}

/// Saturating addition on 32-bit unsigned integers.
pub open spec fn sat_add_u32(a: u32, b: u32) -> u32 {
    if a + b > u32::MAX {
        u32::MAX
    } else {
        (a + b) as u32
    }
}

/// The saturating sum of a group's signed cells over the first `t`
/// members; missing cells are skipped, and a group with no present cell
/// has no sum.
pub open spec fn group_sum_i32(cells: Seq<Option<ScalarV>>, idxs: Seq<usize>, t: int) -> Option<
    i32,
>
    decreases t,
{
    if t <= 0 {
        None
    } else {
        let rest = group_sum_i32(cells, idxs, t - 1);
        match cells[idxs[t - 1] as int] {
            Some(ScalarV::Int32(v)) => Some(
                sat_add_i32(
                    match rest {
                        Some(s) => s,
                        None => 0,
                    },
                    v,
                ),
            ),
            _ => rest,
        }
    }
}

/// The saturating sum of a group's unsigned cells.
pub open spec fn group_sum_u32(cells: Seq<Option<ScalarV>>, idxs: Seq<usize>, t: int) -> Option<
    u32,
>
    decreases t,
{
    if t <= 0 {
        None
    } else {
        let rest = group_sum_u32(cells, idxs, t - 1);
        match cells[idxs[t - 1] as int] {
            Some(ScalarV::UInt32(v)) => Some(
                sat_add_u32(
                    match rest {
                        Some(s) => s,
                        None => 0,
                    },
                    v,
                ),
            ),
            _ => rest,
        }
    }
}

/// The sum cell of one group for a value column of the given kind.
pub open spec fn sum_cell(cells: Seq<Option<ScalarV>>, idxs: Seq<usize>, dt: DataType) -> Option<
    ScalarV,
> {
    if dt == DataType::Int32 {
        match group_sum_i32(cells, idxs, idxs.len() as int) {
            Some(s) => Some(ScalarV::Int32(s)),
            None => None,
        }
    } else {
        match group_sum_u32(cells, idxs, idxs.len() as int) {
            Some(s) => Some(ScalarV::UInt32(s)),
            None => None,
        }
    }
}

/// The least (or greatest) present cell among the first `t` members of a
/// group, earlier members winning ties; missing cells are skipped.
pub open spec fn group_extreme(
    cells: Seq<Option<ScalarV>>,
    idxs: Seq<usize>,
    t: int,
    find_min: bool,
) -> Option<ScalarV>
    decreases t,
{
    if t <= 0 {
        None
    } else {
        let rest = group_extreme(cells, idxs, t - 1, find_min);
        match cells[idxs[t - 1] as int] {
            None => rest,
            Some(v) => match rest {
                None => Some(v),
                Some(cur) => if (if find_min {
                    sv_cmp(v, cur) == Ordering::Less
                } else {
                    sv_cmp(v, cur) == Ordering::Greater
                }) {
                    Some(v)
                } else {
                    Some(cur)
                },
            },
        }
    }
}

/// A fold over cells of one kind yields a value of that kind.
proof fn lemma_group_extreme_kind(
    cells: Seq<Option<ScalarV>>,
    idxs: Seq<usize>,
    t: int,
    find_min: bool,
    dt: DataType,
)
    requires
        forall|i: int| 0 <= i < cells.len() ==> cell_ok(#[trigger] cells[i], dt),
        forall|j: int| 0 <= j < idxs.len() ==> (#[trigger] idxs[j]) < cells.len(),
        t <= idxs.len(),
    ensures
        group_extreme(cells, idxs, t, find_min) matches Some(v) ==> sv_kind(v) == dt,
    decreases t,
{
    if t > 0 {
        lemma_group_extreme_kind(cells, idxs, t - 1, find_min, dt);
        assert(cell_ok(cells[idxs[t - 1] as int], dt));
    }
}

impl GroupBy {
    /// The rebuilt key columns of an aggregate's output: one row per
    /// group, in first-seen key order, each column keeping its source
    /// name and kind.
    fn build_key_columns(&self) -> (r: Vec<Series>)
        requires
            self.wf(),
        ensures
            r@.len() == self@.keys.len(),
            forall|k: int|
                0 <= k < self@.keys.len() ==> {
                    &&& (#[trigger] r@[k])@.name == self@.keys[k]
                    &&& (crate::table::find_col(self@.df.columns, self@.keys[k]) matches Some(i)
                        && r@[k]@.dtype == self@.df.columns[i].dtype)
                    &&& r@[k]@.cells == Seq::new(
                        self@.groups.len() as nat,
                        |g: int| Some(keyv_to_sv(self@.groups[g].0[k])),
                    )
                    &&& series_wf(r@[k]@)
                },
    {
        let ghost kmodel = kcols_of(self@.df.columns, self@.keys);
        proof {
            lemma_groups_props(kmodel, self@.df.height);
        }
        let nk = self.keys.len();
        let ng = self.groups.len();
        proof {
            assert forall|g: int| 0 <= g < ng implies (#[trigger] self@.groups[g]).0.len()
                == nk by {
                assert(self@.groups[g].1.len() >= 1);
                let row = self@.groups[g].1[0];
                assert(row_key(kmodel, row as int) == Some(self@.groups[g].0));
                lemma_row_key(kmodel, row as int);
            }
        }
        let mut out: Vec<Series> = Vec::new();
        let mut k: usize = 0;
        while k < nk
            invariant
                0 <= k <= nk,
                self.wf(),
                kmodel == kcols_of(self@.df.columns, self@.keys),
                nk == self@.keys.len(),
                ng == self@.groups.len(),
                forall|g: int| 0 <= g < ng ==> (#[trigger] self@.groups[g]).0.len() == nk,
                out@.len() == k,
                forall|t: int|
                    0 <= t < k ==> {
                        &&& (#[trigger] out@[t])@.name == self@.keys[t]
                        &&& (crate::table::find_col(self@.df.columns, self@.keys[t]) matches Some(
                            i,
                        ) && out@[t]@.dtype == self@.df.columns[i].dtype)
                        &&& out@[t]@.cells == Seq::new(
                            ng as nat,
                            |g: int| Some(keyv_to_sv(self@.groups[g].0[t])),
                        )
                        &&& series_wf(out@[t]@)
                    },
            decreases nk - k,
        {
            proof {
                assert(self@.keys[k as int] == self.keys@[k as int]@);
                lemma_find_col(self@.df.columns, self@.keys[k as int]);
            }
            let kcol = match self.df.column(self.keys[k].as_str()) {
                Ok(c) => c,
                Err(_) => {
                    proof {
                        assert(false);
                    }
                    return Vec::new();
                },
            };
            let dt = kcol.dtype();
            let mut cells: Vec<Option<Scalar>> = Vec::new();
            let mut g: usize = 0;
            while g < ng
                invariant
                    0 <= g <= ng,
                    self.wf(),
                    kmodel == kcols_of(self@.df.columns, self@.keys),
                    nk == self@.keys.len(),
                    k < nk,
                    ng == self@.groups.len(),
                    forall|t: int| 0 <= t < ng ==> (#[trigger] self@.groups[t]).0.len() == nk,
                    crate::table::find_col(self@.df.columns, self@.keys[k as int]) matches Some(i)
                        && dt == self@.df.columns[i].dtype,
                    key_kind_ok(dt),
                    cells@.len() == g,
                    forall|t: int|
                        0 <= t < g ==> (#[trigger] cells@[t]).deep_view() == Some(
                            keyv_to_sv(self@.groups[t].0[k as int]),
                        ) && cell_ok(cells@[t].deep_view(), dt),
                decreases ng - g,
            {
                proof {
                    lemma_groups_props(kmodel, self@.df.height);
                    assert(self@.groups[g as int].0 == self.groups@[g as int].0.deep_view());
                    assert(self@.groups[g as int].0.len() == nk);
                    // the stored key value round-trips to a cell of the
                    // column's kind, because it came from such a cell
                    assert(self@.groups[g as int].1.len() >= 1);
                    let row = self@.groups[g as int].1[0];
                    assert(row_key(kmodel, row as int) == Some(self@.groups[g as int].0));
                    lemma_row_key(kmodel, row as int);
                    let i = choose|i: int|
                        crate::table::find_col(self@.df.columns, self@.keys[k as int]) == Some(i);
                    lemma_find_col(self@.df.columns, self@.keys[k as int]);
                    assert(0 <= i < self@.df.columns.len());
                    assert(kmodel[k as int] == key_cells(self@.df.columns, self@.keys[k as int]));
                    assert(kmodel[k as int] == self@.df.columns[i].cells);
                    assert(kmodel[k as int][row as int] is Some);
                    let v = kmodel[k as int][row as int]->0;
                    assert(self@.groups[g as int].0[k as int] == sv_to_keyv(v));
                    assert(self@.groups[g as int].1[0] < self@.df.height);
                    assert(series_wf(self@.df.columns[i]));
                    assert(self@.df.columns[i].cells.len() == self@.df.height);
                    assert(cell_ok(self@.df.columns[i].cells[row as int], dt));
                    assert(sv_kind(v) == dt);
                    lemma_key_roundtrip(v);
                    assert(self.groups@[g as int].0.deep_view()[k as int] == self.groups@[
                        g as int
                    ].0@[k as int].deep_view());
                }
                let kv = &self.groups[g].0[k];
                cells.push(Some(keyv_to_scalar(kv)));
                g = g + 1;
            }
            let col = Series {
                name: String::from_str(self.keys[k].as_str()),
                dtype: dt,
                data: cells,
                flags: SeriesFlags::new(),
            };
            proof {
                assert(col@.cells =~= Seq::new(
                    ng as nat,
                    |g: int| Some(keyv_to_sv(self@.groups[g].0[k as int])),
                ));
            }
            out.push(col);
            k = k + 1;
        }
        out
    }

    /// One output row per distinct key, with the member-row count in an
    /// unsigned column named `count`. Fails only when a key column is
    /// itself named `count` or a key is given twice.
    pub fn count(&self) -> (r: AxionResult<DataFrame>)
        requires
            self.wf(),
            self@.df.height <= u32::MAX,
        ensures
            r matches Ok(df) ==> {
                &&& df.wf()
                &&& df@.height == self@.groups.len()
                &&& df@.columns.len() == self@.keys.len() + 1
                &&& (forall|k: int|
                    0 <= k < self@.keys.len() ==> {
                        &&& (#[trigger] df@.columns[k]).name == self@.keys[k]
                        &&& (crate::table::find_col(self@.df.columns, self@.keys[k]) matches Some(
                            i,
                        ) && df@.columns[k].dtype == self@.df.columns[i].dtype)
                        &&& df@.columns[k].cells == Seq::new(
                            self@.groups.len() as nat,
                            |g: int| Some(keyv_to_sv(self@.groups[g].0[k])),
                        )
                    })
                &&& df@.columns[self@.keys.len() as int].name == "count"@
                &&& df@.columns[self@.keys.len() as int].dtype == DataType::UInt32
                &&& df@.columns[self@.keys.len() as int].cells == Seq::new(
                    self@.groups.len() as nat,
                    |g: int| Some(ScalarV::UInt32(self@.groups[g].1.len() as u32)),
                )
            },
            r matches Err(e) ==> e is DuplicateColumnName,
            (forall|p: int, q: int|
                0 <= p < q < self@.keys.len() ==> self@.keys[p] != self@.keys[q]) && (forall|k: int|
                0 <= k < self@.keys.len() ==> self@.keys[k] != "count"@) ==> r is Ok,
    {
        let ghost kmodel = kcols_of(self@.df.columns, self@.keys);
        proof {
            lemma_groups_props(kmodel, self@.df.height);
        }
        let mut cols = self.build_key_columns();
        let ng = self.groups.len();
        let mut counts: Vec<Option<Scalar>> = Vec::new();
        let mut g: usize = 0;
        while g < ng
            invariant
                0 <= g <= ng,
                self.wf(),
                self@.df.height <= u32::MAX,
                kmodel == kcols_of(self@.df.columns, self@.keys),
                ng == self@.groups.len(),
                counts@.len() == g,
                forall|t: int|
                    0 <= t < g ==> (#[trigger] counts@[t]).deep_view() == Some(
                        ScalarV::UInt32(self@.groups[t].1.len() as u32),
                    ),
            decreases ng - g,
        {
            proof {
                lemma_groups_props(kmodel, self@.df.height);
                assert(self@.groups[g as int].1 == self.groups@[g as int].1@);
                lemma_strict_incr_len(self@.groups[g as int].1, self@.df.height);
            }
            let c = self.groups[g].1.len();
            counts.push(Some(Scalar::UInt32(c as u32)));
            g = g + 1;
        }
        let count_col = Series {
            name: String::from_str("count"),
            dtype: DataType::UInt32,
            data: counts,
            flags: SeriesFlags::new(),
        };
        proof {
            reveal_strlit("count");
            assert(count_col@.cells =~= Seq::new(
                ng as nat,
                |g: int| Some(ScalarV::UInt32(self@.groups[g].1.len() as u32)),
            ));
        }
        cols.push(count_col);
        let ghost views = col_views(cols@);
        let nk = self.keys.len();
        proof {
            assert forall|t: int| 0 <= t < views.len() implies (#[trigger] cols@[t]).wf() && (
            #[trigger] views[t]).cells.len() == ng by {
                assert(views[t] == cols@[t]@);
                if t < nk {
                    assert(series_wf(cols@[t]@));
                    assert(cols@[t]@.cells.len() == ng);
                }
            }
            assert(equal_heights(views));
        }
        let df = match DataFrame::new(cols) {
            Ok(df) => df,
            Err(e) => {
                proof {
                    if (forall|p: int, q: int|
                        0 <= p < q < self@.keys.len() ==> self@.keys[p] != self@.keys[q]) && (
                    forall|k: int|
                        0 <= k < self@.keys.len() ==> self@.keys[k] != "count"@) {
                        assert forall|p: int, q: int|
                            0 <= p < q < views.len() implies (#[trigger] views[p]).name != (
                        #[trigger] views[q]).name by {
                            assert(views[p] == cols@[p]@ && views[q] == cols@[q]@);
                            if q < nk {
                                assert(views[p].name == self@.keys[p] && views[q].name
                                    == self@.keys[q]);
                            } else {
                                assert(views[q].name == "count"@);
                                assert(views[p].name == self@.keys[p]);
                            }
                        }
                        assert(distinct_names(views));
                        assert(false);
                    }
                }
                return Err(e);
            },
        };
        proof {
            assert(df@.height == ng) by {
                assert(views.len() > 0);
                assert(views[0].cells.len() == ng);
            }
            assert forall|k: int| 0 <= k < nk implies (#[trigger] df@.columns[k]).name
                == self@.keys[k] && (crate::table::find_col(self@.df.columns, self@.keys[k])
                matches Some(i) && df@.columns[k].dtype == self@.df.columns[i].dtype)
                && df@.columns[k].cells == Seq::new(
                self@.groups.len() as nat,
                |g: int| Some(keyv_to_sv(self@.groups[g].0[k])),
            ) by {
                assert(df@.columns[k] == cols@[k]@);
            }
            assert(df@.columns[nk as int] == cols@[nk as int]@);
        }
        Ok(df)
    }
}

impl GroupBy {
    /// The saturating per-group sums of every summable value column:
    /// the 32-bit numeric columns that are not keys. Missing cells are
    /// skipped; a group whose members are all missing has no sum.
    pub fn sum(&self) -> (r: AxionResult<DataFrame>)
        requires
            self.wf(),
        ensures
            r matches Ok(df) ==> ({
                let vids = agg_cols_upto(
                    self@.df.columns,
                    self@.keys,
                    AggSel::Sum,
                    self@.df.columns.len() as int,
                );
                &&& df.wf()
                &&& df@.height == (if self@.keys.len() + vids.len() == 0 {
                    0
                } else {
                    self@.groups.len() as int
                })
                &&& df@.columns.len() == self@.keys.len() + vids.len()
                &&& (forall|k: int|
                    0 <= k < self@.keys.len() ==> {
                        &&& (#[trigger] df@.columns[k]).name == self@.keys[k]
                        &&& (crate::table::find_col(self@.df.columns, self@.keys[k]) matches Some(
                            i,
                        ) && df@.columns[k].dtype == self@.df.columns[i].dtype)
                        &&& df@.columns[k].cells == Seq::new(
                            self@.groups.len() as nat,
                            |g: int| Some(keyv_to_sv(self@.groups[g].0[k])),
                        )
                    })
                &&& (forall|j: int|
                    0 <= j < vids.len() ==> {
                        &&& (#[trigger] df@.columns[self@.keys.len() + j]).name
                            == self@.df.columns[vids[j]].name
                        &&& df@.columns[self@.keys.len() + j].dtype
                            == self@.df.columns[vids[j]].dtype
                        &&& df@.columns[self@.keys.len() + j].cells == Seq::new(
                            self@.groups.len() as nat,
                            |g: int| sum_cell(
                                self@.df.columns[vids[j]].cells,
                                self@.groups[g].1,
                                self@.df.columns[vids[j]].dtype,
                            ),
                        )
                    })
            }),
            r matches Err(e) ==> e is DuplicateColumnName,
            (forall|p: int, q: int|
                0 <= p < q < self@.keys.len() ==> self@.keys[p] != self@.keys[q]) ==> r is Ok,
    {
        self.aggregate_numeric()
    }

    /// The whole sum pass; kept apart so its loops stay readable.
    fn aggregate_numeric(&self) -> (r: AxionResult<DataFrame>)
        requires
            self.wf(),
        ensures
            r matches Ok(df) ==> ({
                let vids = agg_cols_upto(
                    self@.df.columns,
                    self@.keys,
                    AggSel::Sum,
                    self@.df.columns.len() as int,
                );
                &&& df.wf()
                &&& df@.height == (if self@.keys.len() + vids.len() == 0 {
                    0
                } else {
                    self@.groups.len() as int
                })
                &&& df@.columns.len() == self@.keys.len() + vids.len()
                &&& (forall|k: int|
                    0 <= k < self@.keys.len() ==> {
                        &&& (#[trigger] df@.columns[k]).name == self@.keys[k]
                        &&& (crate::table::find_col(self@.df.columns, self@.keys[k]) matches Some(
                            i,
                        ) && df@.columns[k].dtype == self@.df.columns[i].dtype)
                        &&& df@.columns[k].cells == Seq::new(
                            self@.groups.len() as nat,
                            |g: int| Some(keyv_to_sv(self@.groups[g].0[k])),
                        )
                    })
                &&& (forall|j: int|
                    0 <= j < vids.len() ==> {
                        &&& (#[trigger] df@.columns[self@.keys.len() + j]).name
                            == self@.df.columns[vids[j]].name
                        &&& df@.columns[self@.keys.len() + j].dtype
                            == self@.df.columns[vids[j]].dtype
                        &&& df@.columns[self@.keys.len() + j].cells == Seq::new(
                            self@.groups.len() as nat,
                            |g: int| sum_cell(
                                self@.df.columns[vids[j]].cells,
                                self@.groups[g].1,
                                self@.df.columns[vids[j]].dtype,
                            ),
                        )
                    })
            }),
            r matches Err(e) ==> e is DuplicateColumnName,
            (forall|p: int, q: int|
                0 <= p < q < self@.keys.len() ==> self@.keys[p] != self@.keys[q]) ==> r is Ok,
    {
        let ghost kmodel = kcols_of(self@.df.columns, self@.keys);
        let mut cols = self.build_key_columns();
        let nk = self.keys.len();
        let ghost keycols = cols@;
        let nc = self.df.width();
        let ng = self.groups.len();
        let mut c: usize = 0;
        while c < nc
            invariant
                0 <= c <= nc,
                self.wf(),
                kmodel == kcols_of(self@.df.columns, self@.keys),
                nk == self@.keys.len(),
                ng == self@.groups.len(),
                nc == self@.df.columns.len(),
                keycols.len() == nk,
                cols@.len() == nk + agg_cols_upto(self@.df.columns, self@.keys, AggSel::Sum, c as int).len(),
                forall|t: int| 0 <= t < nk ==> #[trigger] cols@[t] == keycols[t],
                forall|t: int|
                    0 <= t < nk ==> ((#[trigger] keycols[t])@.name == self@.keys[t] && keycols[
                        t
                    ]@.cells.len() == ng && series_wf(keycols[t]@)),
                forall|j: int|
                    0 <= j < agg_cols_upto(self@.df.columns, self@.keys, AggSel::Sum, c as int).len()
                        ==> ({
                        let src = self@.df.columns[agg_cols_upto(
                            self@.df.columns,
                            self@.keys,
                            AggSel::Sum,
                            c as int,
                        )[j]];
                        &&& (#[trigger] cols@[nk + j])@.name == src.name
                        &&& cols@[nk + j]@.dtype == src.dtype
                        &&& cols@[nk + j]@.cells == Seq::new(
                            ng as nat,
                            |g: int| sum_cell(src.cells, self@.groups[g].1, src.dtype),
                        )
                        &&& series_wf(cols@[nk + j]@)
                    }),
            decreases nc - c,
        {
            proof {
                assert(self@.df.columns[c as int] == self.df.columns@[c as int]@);
            }
            let col = &self.df.columns[c];
            // skip the key columns themselves
            let mut is_key = false;
            let mut k: usize = 0;
            while k < nk
                invariant
                    0 <= k <= nk,
                    nk == self@.keys.len(),
                    col@.name == self@.df.columns[c as int].name,
                    is_key ==> is_key_name(self@.keys, col@.name),
                    !is_key ==> (forall|t: int| 0 <= t < k ==> (#[trigger] self@.keys[t]) != col@.name),
                decreases nk - k,
            {
                proof {
                    assert(self@.keys[k as int] == self.keys@[k as int]@);
                }
                if str_eq(self.keys[k].as_str(), col.name()) {
                    is_key = true;
                }
                k = k + 1;
            }
            proof {
                if !is_key {
                    assert(!is_key_name(self@.keys, col@.name)) by {
                        if is_key_name(self@.keys, col@.name) {
                            let t = choose|t: int|
                                0 <= t < self@.keys.len() && self@.keys[t] == col@.name;
                            assert(self@.keys[t] != col@.name);
                        }
                    }
                }
            }
            let dt = col.dtype();
            let signed = dtype_eq(&dt, &DataType::Int32);
            let summable = signed || dtype_eq(&dt, &DataType::UInt32);
            if !is_key && summable {
                proof {
                    lemma_groups_props(kmodel, self@.df.height);
                    assert forall|g: int, t: int|
                        0 <= g < self.groups@.len() && 0 <= t < (
                    #[trigger] self.groups@[g]).1@.len() implies (#[trigger] self.groups@[g].1@[t])
                        < col@.cells.len() by {
                        assert(self@.groups[g].1 == self.groups@[g].1@);
                        assert(self@.groups[g].1[t] < self@.df.height);
                    }
                }
                let cells = group_sums(col, &self.groups, signed);
                let out_col = Series {
                    name: String::from_str(col.name()),
                    dtype: dt,
                    data: cells,
                    flags: SeriesFlags::new(),
                };
                proof {
                    assert(out_col@.cells =~= Seq::new(
                        ng as nat,
                        |g: int| sum_cell(
                            self@.df.columns[c as int].cells,
                            self@.groups[g].1,
                            self@.df.columns[c as int].dtype,
                        ),
                    )) by {
                        assert forall|g: int| 0 <= g < ng implies out_col@.cells[g] == sum_cell(
                            self@.df.columns[c as int].cells,
                            self@.groups[g].1,
                            self@.df.columns[c as int].dtype,
                        ) by {
                            assert(self@.groups[g].1 == self.groups@[g].1@);
                        }
                    }
                    assert forall|i: int| 0 <= i < out_col@.cells.len() implies cell_ok(
                        #[trigger] out_col@.cells[i],
                        out_col@.dtype,
                    ) by {}
                }
                cols.push(out_col);
                proof {
                    assert(agg_cols_upto(self@.df.columns, self@.keys, AggSel::Sum, c as int + 1)
                        =~= agg_cols_upto(
                        self@.df.columns,
                        self@.keys,
                        AggSel::Sum,
                        c as int,
                    ).push(c as int));
                }
            } else {
                proof {
                    assert(agg_cols_upto(self@.df.columns, self@.keys, AggSel::Sum, c as int + 1)
                        =~= agg_cols_upto(self@.df.columns, self@.keys, AggSel::Sum, c as int));
                }
            }
            c = c + 1;
        }
        proof {
            assert forall|t: int| 0 <= t < cols@.len() implies (#[trigger] cols@[t]).wf() && cols@[
                t
            ]@.cells.len() == ng by {
                if t < nk {
                    assert(cols@[t] == keycols[t]);
                } else {
                    assert(cols@[nk + (t - nk)]@.cells.len() == ng);
                    assert(series_wf(cols@[nk + (t - nk)]@));
                }
            }
        }
        self.finish_aggregate(cols, Ghost(AggSel::Sum))
    }

    /// Validates and wraps an aggregate's output columns.
    fn finish_aggregate(&self, cols: Vec<Series>, Ghost(sel): Ghost<AggSel>) -> (r: AxionResult<
        DataFrame,
    >)
        requires
            self.wf(),
            cols@.len() == self@.keys.len() + agg_cols_upto(
                self@.df.columns,
                self@.keys,
                sel,
                self@.df.columns.len() as int,
            ).len(),
            forall|t: int| 0 <= t < cols@.len() ==> (#[trigger] cols@[t]).wf(),
            forall|t: int|
                0 <= t < cols@.len() ==> (#[trigger] cols@[t])@.cells.len()
                    == self@.groups.len(),
            forall|k: int|
                0 <= k < self@.keys.len() ==> (#[trigger] cols@[k])@.name == self@.keys[k],
            forall|j: int|
                0 <= j < cols@.len() - self@.keys.len() ==> (#[trigger] cols@[self@.keys.len()
                    + j])@.name == self@.df.columns[agg_cols_upto(
                    self@.df.columns,
                    self@.keys,
                    sel,
                    self@.df.columns.len() as int,
                )[j]].name,
        ensures
            r matches Ok(df) ==> {
                &&& df.wf()
                &&& df@.height == (if cols@.len() == 0 {
                    0
                } else {
                    self@.groups.len() as int
                })
                &&& df@.columns.len() == cols@.len()
                &&& (forall|t: int|
                    0 <= t < cols@.len() ==> #[trigger] df@.columns[t] == cols@[t]@)
            },
            r matches Err(e) ==> e is DuplicateColumnName,
            (forall|p: int, q: int|
                0 <= p < q < self@.keys.len() ==> self@.keys[p] != self@.keys[q]) ==> r is Ok,
    {
        let ghost views = col_views(cols@);
        let ghost nk = self@.keys.len();
        let ghost vids = agg_cols_upto(
            self@.df.columns,
            self@.keys,
            sel,
            self@.df.columns.len() as int,
        );
        proof {
            assert forall|t: int| 0 <= t < views.len() implies (#[trigger] views[t]).cells.len()
                == self@.groups.len() by {
                assert(views[t] == cols@[t]@);
            }
            assert(equal_heights(views));
            lemma_agg_cols_props(
                self@.df.columns,
                self@.keys,
                sel,
                self@.df.columns.len() as int,
            );
            if forall|p: int, q: int|
                0 <= p < q < self@.keys.len() ==> self@.keys[p] != self@.keys[q] {
                assert forall|p: int, q: int|
                    0 <= p < q < views.len() implies (#[trigger] views[p]).name != (
                #[trigger] views[q]).name by {
                    assert(views[p] == cols@[p]@ && views[q] == cols@[q]@);
                    if q < nk {
                        assert(views[p].name == self@.keys[p] && views[q].name == self@.keys[q]);
                    } else if p < nk {
                        let jq = q - nk;
                        assert(views[p].name == self@.keys[p]);
                        assert(cols@[self@.keys.len() + jq]@.name == self@.df.columns[vids[
                            jq
                        ]].name);
                        assert(!is_key_name(self@.keys, self@.df.columns[vids[jq]].name));
                    } else {
                        let jp = p - nk;
                        let jq = q - nk;
                        assert(cols@[self@.keys.len() + jp]@.name == self@.df.columns[vids[
                            jp
                        ]].name);
                        assert(cols@[self@.keys.len() + jq]@.name == self@.df.columns[vids[
                            jq
                        ]].name);
                        assert(vids[jp] < vids[jq]);
                        assert(crate::table::distinct_names(self@.df.columns));
                        assert(self@.df.columns[vids[jp]].name != self@.df.columns[vids[jq]].name);
                    }
                }
                assert(distinct_names(views));
            }
        }
        let df = match DataFrame::new(cols) {
            Ok(df) => df,
            Err(e) => {
                return Err(e);
            },
        };
        proof {
            if views.len() > 0 {
                assert(views[0].cells.len() == self@.groups.len());
                assert(crate::table::first_height(views) == self@.groups.len() as int);
            }
            assert forall|t: int| 0 <= t < views.len() implies #[trigger] df@.columns[t]
                == cols@[t]@ by {}
        }
        Ok(df)
    }

    /// The per-group least value of every comparable value column.
    pub fn min(&self) -> (r: AxionResult<DataFrame>)
        requires
            self.wf(),
        ensures
            r matches Ok(df) ==> agg_extreme_ok(self@, df@, true),
            r matches Err(e) ==> e is DuplicateColumnName,
            (forall|p: int, q: int|
                0 <= p < q < self@.keys.len() ==> self@.keys[p] != self@.keys[q]) ==> r is Ok,
    {
        self.aggregate_min_max(true)
    }

    /// The per-group greatest value of every comparable value column.
    pub fn max(&self) -> (r: AxionResult<DataFrame>)
        requires
            self.wf(),
        ensures
            r matches Ok(df) ==> agg_extreme_ok(self@, df@, false),
            r matches Err(e) ==> e is DuplicateColumnName,
            (forall|p: int, q: int|
                0 <= p < q < self@.keys.len() ==> self@.keys[p] != self@.keys[q]) ==> r is Ok,
    {
        self.aggregate_min_max(false)
    }

    /// The shared pass of `min` and `max`.
    fn aggregate_min_max(&self, find_min: bool) -> (r: AxionResult<DataFrame>)
        requires
            self.wf(),
        ensures
            r matches Ok(df) ==> agg_extreme_ok(self@, df@, find_min),
            r matches Err(e) ==> e is DuplicateColumnName,
            (forall|p: int, q: int|
                0 <= p < q < self@.keys.len() ==> self@.keys[p] != self@.keys[q]) ==> r is Ok,
    {
        let ghost kmodel = kcols_of(self@.df.columns, self@.keys);
        let mut cols = self.build_key_columns();
        let nk = self.keys.len();
        let ghost keycols = cols@;
        let nc = self.df.width();
        let ng = self.groups.len();
        let mut c: usize = 0;
        while c < nc
            invariant
                0 <= c <= nc,
                self.wf(),
                kmodel == kcols_of(self@.df.columns, self@.keys),
                nk == self@.keys.len(),
                ng == self@.groups.len(),
                nc == self@.df.columns.len(),
                keycols.len() == nk,
                cols@.len() == nk + agg_cols_upto(
                    self@.df.columns,
                    self@.keys,
                    AggSel::MinMax,
                    c as int,
                ).len(),
                forall|t: int| 0 <= t < nk ==> #[trigger] cols@[t] == keycols[t],
                forall|t: int|
                    0 <= t < nk ==> ((#[trigger] keycols[t])@.name == self@.keys[t] && keycols[
                        t
                    ]@.cells.len() == ng && series_wf(keycols[t]@)),
                forall|j: int|
                    0 <= j < agg_cols_upto(
                        self@.df.columns,
                        self@.keys,
                        AggSel::MinMax,
                        c as int,
                    ).len() ==> ({
                        let src = self@.df.columns[agg_cols_upto(
                            self@.df.columns,
                            self@.keys,
                            AggSel::MinMax,
                            c as int,
                        )[j]];
                        &&& (#[trigger] cols@[nk + j])@.name == src.name
                        &&& cols@[nk + j]@.dtype == src.dtype
                        &&& cols@[nk + j]@.cells == Seq::new(
                            ng as nat,
                            |g: int| group_extreme(
                                src.cells,
                                self@.groups[g].1,
                                self@.groups[g].1.len() as int,
                                find_min,
                            ),
                        )
                        &&& series_wf(cols@[nk + j]@)
                    }),
            decreases nc - c,
        {
            proof {
                assert(self@.df.columns[c as int] == self.df.columns@[c as int]@);
            }
            let col = &self.df.columns[c];
            let mut is_key = false;
            let mut k: usize = 0;
            while k < nk
                invariant
                    0 <= k <= nk,
                    nk == self@.keys.len(),
                    col@.name == self@.df.columns[c as int].name,
                    is_key ==> is_key_name(self@.keys, col@.name),
                    !is_key ==> (forall|t: int| 0 <= t < k ==> (#[trigger] self@.keys[t]) != col@.name),
                decreases nk - k,
            {
                proof {
                    assert(self@.keys[k as int] == self.keys@[k as int]@);
                }
                if str_eq(self.keys[k].as_str(), col.name()) {
                    is_key = true;
                }
                k = k + 1;
            }
            proof {
                if !is_key {
                    assert(!is_key_name(self@.keys, col@.name)) by {
                        if is_key_name(self@.keys, col@.name) {
                            let t = choose|t: int|
                                0 <= t < self@.keys.len() && self@.keys[t] == col@.name;
                            assert(self@.keys[t] != col@.name);
                        }
                    }
                }
            }
            let dt = col.dtype();
            let comparable = dtype_eq(&dt, &DataType::Int8) || dtype_eq(&dt, &DataType::Int16)
                || dtype_eq(&dt, &DataType::Int32) || dtype_eq(&dt, &DataType::Int64) || dtype_eq(
                &dt,
                &DataType::UInt8,
            ) || dtype_eq(&dt, &DataType::UInt16) || dtype_eq(&dt, &DataType::UInt32) || dtype_eq(
                &dt,
                &DataType::UInt64,
            ) || dtype_eq(&dt, &DataType::String) || dtype_eq(&dt, &DataType::Bool);
            if !is_key && comparable {
                proof {
                    lemma_groups_props(kmodel, self@.df.height);
                    assert forall|g: int, t: int|
                        0 <= g < self.groups@.len() && 0 <= t < (
                    #[trigger] self.groups@[g]).1@.len() implies (#[trigger] self.groups@[g].1@[t])
                        < col@.cells.len() by {
                        assert(self@.groups[g].1 == self.groups@[g].1@);
                        assert(self@.groups[g].1[t] < self@.df.height);
                    }
                }
                let cells = group_extremes(col, &self.groups, find_min);
                let out_col = Series {
                    name: String::from_str(col.name()),
                    dtype: dt,
                    data: cells,
                    flags: SeriesFlags::new(),
                };
                proof {
                    assert(out_col@.cells =~= Seq::new(
                        ng as nat,
                        |g: int| group_extreme(
                            self@.df.columns[c as int].cells,
                            self@.groups[g].1,
                            self@.groups[g].1.len() as int,
                            find_min,
                        ),
                    )) by {
                        assert forall|g: int| 0 <= g < ng implies out_col@.cells[g]
                            == group_extreme(
                            self@.df.columns[c as int].cells,
                            self@.groups[g].1,
                            self@.groups[g].1.len() as int,
                            find_min,
                        ) by {
                            assert(self@.groups[g].1 == self.groups@[g].1@);
                        }
                    }
                    assert forall|i: int| 0 <= i < out_col@.cells.len() implies cell_ok(
                        #[trigger] out_col@.cells[i],
                        out_col@.dtype,
                    ) by {}
                }
                cols.push(out_col);
                proof {
                    assert(agg_cols_upto(
                        self@.df.columns,
                        self@.keys,
                        AggSel::MinMax,
                        c as int + 1,
                    ) =~= agg_cols_upto(
                        self@.df.columns,
                        self@.keys,
                        AggSel::MinMax,
                        c as int,
                    ).push(c as int));
                }
            } else {
                proof {
                    assert(agg_cols_upto(
                        self@.df.columns,
                        self@.keys,
                        AggSel::MinMax,
                        c as int + 1,
                    ) =~= agg_cols_upto(self@.df.columns, self@.keys, AggSel::MinMax, c as int));
                }
            }
            c = c + 1;
        }
        proof {
            assert forall|t: int| 0 <= t < cols@.len() implies (#[trigger] cols@[t]).wf() && cols@[
                t
            ]@.cells.len() == ng by {
                if t < nk {
                    assert(cols@[t] == keycols[t]);
                } else {
                    assert(cols@[nk + (t - nk)]@.cells.len() == ng);
                    assert(series_wf(cols@[nk + (t - nk)]@));
                }
            }
        }
        let r = self.finish_aggregate(cols, Ghost(AggSel::MinMax));
        proof {
            if r is Ok {
                let df = r->Ok_0;
                assert(agg_extreme_ok(self@, df@, find_min));
            }
        }
        r
    }
}

/// What the output of `min` or `max` holds: the rebuilt keys and, per
/// comparable value column, the per-group extreme value.
pub open spec fn agg_extreme_ok(gv: GroupByV, dfv: crate::table::DataFrameV, find_min: bool) -> bool {
    let vids = agg_cols_upto(gv.df.columns, gv.keys, AggSel::MinMax, gv.df.columns.len() as int);
    &&& dfv.height == (if gv.keys.len() + vids.len() == 0 {
        0
    } else {
        gv.groups.len() as int
    })
    &&& dfv.columns.len() == gv.keys.len() + vids.len()
    &&& (forall|k: int|
        0 <= k < gv.keys.len() ==> {
            &&& (#[trigger] dfv.columns[k]).name == gv.keys[k]
            &&& (crate::table::find_col(gv.df.columns, gv.keys[k]) matches Some(i)
                && dfv.columns[k].dtype == gv.df.columns[i].dtype)
            &&& dfv.columns[k].cells == Seq::new(
                gv.groups.len() as nat,
                |g: int| Some(keyv_to_sv(gv.groups[g].0[k])),
            )
        })
    &&& (forall|j: int|
        0 <= j < vids.len() ==> {
            &&& (#[trigger] dfv.columns[gv.keys.len() + j]).name == gv.df.columns[vids[j]].name
            &&& dfv.columns[gv.keys.len() + j].dtype == gv.df.columns[vids[j]].dtype
            &&& dfv.columns[gv.keys.len() + j].cells == Seq::new(
                gv.groups.len() as nat,
                |g: int| group_extreme(
                    gv.df.columns[vids[j]].cells,
                    gv.groups[g].1,
                    gv.groups[g].1.len() as int,
                    find_min,
                ),
            )
        })
}

/// Saturating signed addition, executable form.
fn sat_add_i32_exec(a: i32, b: i32) -> (r: i32)
    ensures
        r == sat_add_i32(a, b),
{
    match a.checked_add(b) {
        Some(v) => v,
        None => if b > 0 {
            i32::MAX
        } else {
            i32::MIN
        },
    }
}

/// Saturating unsigned addition, executable form.
fn sat_add_u32_exec(a: u32, b: u32) -> (r: u32)
    ensures
        r == sat_add_u32(a, b),
{
    match a.checked_add(b) {
        Some(v) => v,
        None => u32::MAX,
    }
}

/// The member rows of every group, as index sequences.
pub open spec fn group_rows(groups: Seq<(Seq<GroupKeyV>, Seq<usize>)>) -> Seq<Seq<usize>> {
    Seq::new(groups.len(), |g: int| groups[g].1)
}

/// The per-group saturating sums of one 32-bit numeric column.
fn group_sums(col: &Series, groups: &Vec<(crate::types::GroupKey, Vec<usize>)>, signed: bool) -> (r:
    Vec<Option<Scalar>>)
    requires
        col.wf(),
        signed ==> col@.dtype == DataType::Int32,
        !signed ==> col@.dtype == DataType::UInt32,
        forall|g: int, t: int|
            0 <= g < groups@.len() && 0 <= t < (#[trigger] groups@[g]).1@.len() ==> (
            #[trigger] groups@[g].1@[t]) < col@.cells.len(),
    ensures
        r@.len() == groups@.len(),
        forall|g: int|
            0 <= g < groups@.len() ==> (#[trigger] r@[g]).deep_view() == sum_cell(
                col@.cells,
                groups@[g].1@,
                col@.dtype,
            ),
        forall|g: int| 0 <= g < groups@.len() ==> cell_ok((#[trigger] r@[g]).deep_view(), col@.dtype),
    {
    let ng = groups.len();
    let mut out: Vec<Option<Scalar>> = Vec::new();
    let mut g: usize = 0;
    while g < ng
        invariant
            0 <= g <= ng,
            ng == groups@.len(),
            col.wf(),
            signed ==> col@.dtype == DataType::Int32,
            !signed ==> col@.dtype == DataType::UInt32,
            forall|gg: int, t: int|
                0 <= gg < groups@.len() && 0 <= t < (#[trigger] groups@[gg]).1@.len() ==> (
                #[trigger] groups@[gg].1@[t]) < col@.cells.len(),
            out@.len() == g,
            forall|gg: int|
                0 <= gg < g ==> (#[trigger] out@[gg]).deep_view() == sum_cell(
                    col@.cells,
                    groups@[gg].1@,
                    col@.dtype,
                ),
        decreases ng - g,
    {
        let idxs = &groups[g].1;
        let nt = idxs.len();
        let mut t: usize = 0;
        if signed {
            let mut cur: Option<i32> = None;
            while t < nt
                invariant
                    0 <= t <= nt,
                    nt == idxs@.len(),
                    col.wf(),
                    col@.dtype == DataType::Int32,
                    forall|tt: int| 0 <= tt < nt ==> (#[trigger] idxs@[tt]) < col@.cells.len(),
                    cur == group_sum_i32(col@.cells, idxs@, t as int),
                decreases nt - t,
            {
                let idx = idxs[t];
                proof {
                    assert(col.data.deep_view()[idx as int] == col.data@[idx as int].deep_view());
                }
                match &col.data[idx] {
                    Some(Scalar::Int32(v)) => {
                        let base = match cur {
                            Some(s) => s,
                            None => 0,
                        };
                        cur = Some(sat_add_i32_exec(base, *v));
                    },
                    _ => {},
                }
                t = t + 1;
            }
            let cell = match cur {
                Some(s) => Some(Scalar::Int32(s)),
                None => None,
            };
            out.push(cell);
        } else {
            let mut cur: Option<u32> = None;
            while t < nt
                invariant
                    0 <= t <= nt,
                    nt == idxs@.len(),
                    col.wf(),
                    col@.dtype == DataType::UInt32,
                    forall|tt: int| 0 <= tt < nt ==> (#[trigger] idxs@[tt]) < col@.cells.len(),
                    cur == group_sum_u32(col@.cells, idxs@, t as int),
                decreases nt - t,
            {
                let idx = idxs[t];
                proof {
                    assert(col.data.deep_view()[idx as int] == col.data@[idx as int].deep_view());
                }
                match &col.data[idx] {
                    Some(Scalar::UInt32(v)) => {
                        let base = match cur {
                            Some(s) => s,
                            None => 0,
                        };
                        cur = Some(sat_add_u32_exec(base, *v));
                    },
                    _ => {},
                }
                t = t + 1;
            }
            let cell = match cur {
                Some(s) => Some(Scalar::UInt32(s)),
                None => None,
            };
            out.push(cell);
        }
        g = g + 1;
    }
    out
}

/// The per-group least or greatest present value of one column.
fn group_extremes(
    col: &Series,
    groups: &Vec<(crate::types::GroupKey, Vec<usize>)>,
    find_min: bool,
) -> (r: Vec<Option<Scalar>>)
    requires
        col.wf(),
        forall|g: int, t: int|
            0 <= g < groups@.len() && 0 <= t < (#[trigger] groups@[g]).1@.len() ==> (
            #[trigger] groups@[g].1@[t]) < col@.cells.len(),
    ensures
        r@.len() == groups@.len(),
        forall|g: int|
            0 <= g < groups@.len() ==> (#[trigger] r@[g]).deep_view() == group_extreme(
                col@.cells,
                groups@[g].1@,
                groups@[g].1@.len() as int,
                find_min,
            ),
        forall|g: int| 0 <= g < groups@.len() ==> cell_ok((#[trigger] r@[g]).deep_view(), col@.dtype),
    {
    let ng = groups.len();
    let mut out: Vec<Option<Scalar>> = Vec::new();
    let mut g: usize = 0;
    while g < ng
        invariant
            0 <= g <= ng,
            ng == groups@.len(),
            col.wf(),
            forall|gg: int, t: int|
                0 <= gg < groups@.len() && 0 <= t < (#[trigger] groups@[gg]).1@.len() ==> (
                #[trigger] groups@[gg].1@[t]) < col@.cells.len(),
            out@.len() == g,
            forall|gg: int|
                0 <= gg < g ==> (#[trigger] out@[gg]).deep_view() == group_extreme(
                    col@.cells,
                    groups@[gg].1@,
                    groups@[gg].1@.len() as int,
                    find_min,
                ),
            forall|gg: int| 0 <= gg < g ==> cell_ok((#[trigger] out@[gg]).deep_view(), col@.dtype),
        decreases ng - g,
    {
        let idxs = &groups[g].1;
        let nt = idxs.len();
        let mut t: usize = 0;
        let mut cur: Option<Scalar> = None;
        while t < nt
            invariant
                0 <= t <= nt,
                nt == idxs@.len(),
                col.wf(),
                forall|tt: int| 0 <= tt < nt ==> (#[trigger] idxs@[tt]) < col@.cells.len(),
                cur.deep_view() == group_extreme(col@.cells, idxs@, t as int, find_min),
            decreases nt - t,
        {
            let idx = idxs[t];
            proof {
                assert(col.data.deep_view()[idx as int] == col.data@[idx as int].deep_view());
            }
            match &col.data[idx] {
                None => {},
                Some(v) => {
                    let replace = match &cur {
                        None => true,
                        Some(c) => {
                            let o = scalar_cmp(v, c);
                            if find_min {
                                matches!(o, Ordering::Less)
                            } else {
                                matches!(o, Ordering::Greater)
                            }
                        },
                    };
                    if replace {
                        cur = Some(v.clone());
                    }
                },
            }
            t = t + 1;
        }
        proof {
            lemma_group_extreme_kind(
                col@.cells,
                idxs@,
                nt as int,
                find_min,
                col@.dtype,
            );
        }
        out.push(cur);
        g = g + 1;
    }
    out
}

} // verus!
