//! The group-by aggregation engine. One pass over the rows builds one
//! composite key per row from the key columns; a row whose key holds a
//! missing value in any key column joins no group. Groups are kept in
//! first-seen key order, so the output is deterministic.

use vstd::prelude::*;
use crate::dtype::{DataType, dtype_eq};
use crate::error::{AxionError, AxionResult};
use crate::scalar::{Scalar, ScalarV, sv_kind};
use crate::series::{Series, SeriesV, series_wf, cell_ok};
use crate::strutil::str_eq;
use crate::table::{
    DataFrame, DataFrameV, col_views, find_col, has_col, lemma_find_col, lemma_find_col_at,
};
use crate::join::key_cells;
use crate::types::{
    GroupKey, GroupKeyV, GroupKeyValue, sv_to_keyv, keyv_to_sv, scalar_to_keyv, keyv_to_scalar,
    group_key_eq,
};

verus! {

/// The composite key of one row, or `None` when any key cell is missing.
pub open spec fn row_key(kcols: Seq<Seq<Option<ScalarV>>>, row: int) -> Option<Seq<GroupKeyV>>
    decreases kcols.len(),
{
    if kcols.len() == 0 {
        Some(Seq::empty())
    } else {
        match kcols[0][row] {
            None => None,
            Some(v) => match row_key(kcols.drop_first(), row) {
                None => None,
                Some(rest) => Some(seq![sv_to_keyv(v)].add(rest)),
            },
        }
    }
}

/// The composite key exists exactly when every key cell is present, and
/// then holds the converted cells in key order.
pub proof fn lemma_row_key(kcols: Seq<Seq<Option<ScalarV>>>, row: int)
    ensures
        row_key(kcols, row) is Some <==> (forall|k: int|
            0 <= k < kcols.len() ==> (#[trigger] kcols[k])[row] is Some),
        row_key(kcols, row) matches Some(key) ==> key.len() == kcols.len() && (forall|k: int|
            0 <= k < kcols.len() ==> key[k] == sv_to_keyv((#[trigger] kcols[k])[row]->0)),
    decreases kcols.len(),
{
    if kcols.len() > 0 {
        lemma_row_key(kcols.drop_first(), row);
        let rest_cols = kcols.drop_first();
        assert forall|k: int| 0 <= k < rest_cols.len() implies #[trigger] rest_cols[k] == kcols[k
            + 1] by {}
        match kcols[0][row] {
            None => {
                if forall|k: int| 0 <= k < kcols.len() ==> (#[trigger] kcols[k])[row] is Some {
                    assert(kcols[0][row] is Some);
                }
            },
            Some(v) => {
                match row_key(rest_cols, row) {
                    None => {
                        if forall|k: int|
                            0 <= k < kcols.len() ==> (#[trigger] kcols[k])[row] is Some {
                            assert forall|k: int|
                                0 <= k < rest_cols.len() implies (#[trigger] rest_cols[k])[row]
                                is Some by {
                                assert(kcols[k + 1][row] is Some);
                            }
                            assert(row_key(rest_cols, row) is Some);
                        }
                    },
                    Some(rest) => {
                        let key = seq![sv_to_keyv(v)].add(rest);
                        assert(row_key(kcols, row) == Some(key));
                        assert forall|k: int| 0 <= k < kcols.len() implies (
                        #[trigger] kcols[k])[row] is Some by {
                            if k > 0 {
                                assert(rest_cols[k - 1][row] is Some);
                            }
                        }
                        assert forall|k: int| 0 <= k < kcols.len() implies key[k] == sv_to_keyv(
                            (#[trigger] kcols[k])[row]->0,
                        ) by {
                            if k == 0 {
                                assert(key[0] == sv_to_keyv(v));
                            } else {
                                assert(key[k] == rest[k - 1]);
                                assert(rest[k - 1] == sv_to_keyv(rest_cols[k - 1][row]->0));
                            }
                        }
                    },
                }
            },
        }
    }
}

/// The position of the first group carrying a key.
pub open spec fn find_group(gs: Seq<(Seq<GroupKeyV>, Seq<usize>)>, key: Seq<GroupKeyV>) -> Option<
    int,
>
    decreases gs.len(),
{
    if gs.len() == 0 {
        None
    } else if gs[0].0 == key {
        Some(0)
    } else {
        match find_group(gs.drop_first(), key) {
            Some(i) => Some(i + 1),
            None => None,
        }
    }
}

/// `find_group` names the first match, and `None` means no match.
pub proof fn lemma_find_group(gs: Seq<(Seq<GroupKeyV>, Seq<usize>)>, key: Seq<GroupKeyV>)
    ensures
        match find_group(gs, key) {
            Some(i) => 0 <= i < gs.len() && gs[i].0 == key && (forall|j: int|
                0 <= j < i ==> (#[trigger] gs[j]).0 != key),
            None => forall|j: int| 0 <= j < gs.len() ==> (#[trigger] gs[j]).0 != key,
        },
    decreases gs.len(),
{
    if gs.len() > 0 && gs[0].0 != key {
        lemma_find_group(gs.drop_first(), key);
        match find_group(gs.drop_first(), key) {
            Some(i) => {
                assert(gs.drop_first()[i] == gs[i + 1]);
                assert forall|j: int| 0 <= j < i + 1 implies (#[trigger] gs[j]).0 != key by {
                    if j > 0 {
                        assert(gs.drop_first()[j - 1] == gs[j]);
                    }
                }
            },
            None => {
                assert forall|j: int| 0 <= j < gs.len() implies (#[trigger] gs[j]).0 != key by {
                    if j > 0 {
                        assert(gs.drop_first()[j - 1] == gs[j]);
                    }
                }
            },
        }
    }
}

/// A scan that stopped at `k` pins `find_group` down.
pub proof fn lemma_find_group_at(gs: Seq<(Seq<GroupKeyV>, Seq<usize>)>, key: Seq<GroupKeyV>, k: int)
    requires
        0 <= k < gs.len(),
        gs[k].0 == key,
        forall|j: int| 0 <= j < k ==> (#[trigger] gs[j]).0 != key,
    ensures
        find_group(gs, key) == Some(k),
{
    lemma_find_group(gs, key);
}

/// The groups of the first `n` rows, in first-seen key order: each entry
/// pairs a distinct key with the rows carrying it, in row order.
pub open spec fn groups_upto(kcols: Seq<Seq<Option<ScalarV>>>, n: int) -> Seq<
    (Seq<GroupKeyV>, Seq<usize>),
>
    decreases n,
{
    if n <= 0 {
        Seq::empty()
    } else {
        let gs = groups_upto(kcols, n - 1);
        match row_key(kcols, n - 1) {
            None => gs,
            Some(key) => match find_group(gs, key) {
                Some(i) => gs.update(i, (key, gs[i].1.push((n - 1) as usize))),
                None => gs.push((key, seq![(n - 1) as usize])),
            },
        }
    }
}

/// What holds of the groups of a prefix: every group is non-empty, its
/// rows are strictly increasing and in range, every member row carries
/// the group's key, and keys are pairwise distinct.
pub proof fn lemma_groups_props(kcols: Seq<Seq<Option<ScalarV>>>, n: int)
    requires
        n <= usize::MAX,
    ensures
        forall|g: int|
            0 <= g < groups_upto(kcols, n).len() ==> (#[trigger] groups_upto(
                kcols,
                n,
            )[g]).1.len() >= 1,
        forall|g: int, t: int|
            0 <= g < groups_upto(kcols, n).len() && 0 <= t < groups_upto(kcols, n)[g].1.len()
                ==> (#[trigger] groups_upto(kcols, n)[g].1[t]) < n,
        forall|g: int, t1: int, t2: int|
            0 <= g < groups_upto(kcols, n).len() && 0 <= t1 < t2 < groups_upto(
                kcols,
                n,
            )[g].1.len() ==> (#[trigger] groups_upto(kcols, n)[g].1[t1]) < (
            #[trigger] groups_upto(kcols, n)[g].1[t2]),
        forall|g: int, t: int|
            0 <= g < groups_upto(kcols, n).len() && 0 <= t < groups_upto(kcols, n)[g].1.len()
                ==> row_key(kcols, (#[trigger] groups_upto(kcols, n)[g].1[t]) as int) == Some(
                groups_upto(kcols, n)[g].0,
            ),
        forall|g1: int, g2: int|
            0 <= g1 < g2 < groups_upto(kcols, n).len() ==> (#[trigger] groups_upto(
                kcols,
                n,
            )[g1]).0 != (#[trigger] groups_upto(kcols, n)[g2]).0,
    decreases n,
{
    if n > 0 {
        lemma_groups_props(kcols, n - 1);
        let prev = groups_upto(kcols, n - 1);
        let cur = groups_upto(kcols, n);
        match row_key(kcols, n - 1) {
            None => {},
            Some(key) => {
                lemma_find_group(prev, key);
                match find_group(prev, key) {
                    Some(i) => {
                        assert(cur == prev.update(i, (key, prev[i].1.push((n - 1) as usize))));
                        assert forall|g: int, t: int|
                            0 <= g < cur.len() && 0 <= t < cur[g].1.len() implies (
                        #[trigger] cur[g].1[t]) < n && row_key(kcols, cur[g].1[t] as int) == Some(
                            cur[g].0,
                        ) by {
                            if g != i {
                                assert(cur[g] == prev[g]);
                                assert(prev[g].1[t] < n - 1);
                                assert(row_key(kcols, prev[g].1[t] as int) == Some(prev[g].0));
                            } else {
                                if t < prev[i].1.len() {
                                    assert(cur[g].1[t] == prev[i].1[t]);
                                    assert(prev[i].1[t] < n - 1);
                                    assert(row_key(kcols, prev[i].1[t] as int) == Some(prev[i].0));
                                } else {
                                    assert(cur[g].1[t] == (n - 1) as usize);
                                }
                            }
                        }
                        assert forall|g: int, t1: int, t2: int|
                            0 <= g < cur.len() && 0 <= t1 < t2 < cur[g].1.len() implies (
                        #[trigger] cur[g].1[t1]) < (#[trigger] cur[g].1[t2]) by {
                            if g != i {
                                assert(cur[g] == prev[g]);
                                assert(prev[g].1[t1] < prev[g].1[t2]);
                            } else {
                                if t2 < prev[i].1.len() {
                                    assert(cur[g].1[t1] == prev[i].1[t1] && cur[g].1[t2] == prev[
                                        i
                                    ].1[t2]);
                                    assert(prev[i].1[t1] < prev[i].1[t2]);
                                } else {
                                    assert(cur[g].1[t2] == (n - 1) as usize);
                                    assert(cur[g].1[t1] == prev[i].1[t1]);
                                    assert(prev[i].1[t1] < n - 1);
                                }
                            }
                        }
                        assert forall|g1: int, g2: int|
                            0 <= g1 < g2 < cur.len() implies (#[trigger] cur[g1]).0 != (
                        #[trigger] cur[g2]).0 by {
                            assert(cur[g1].0 == prev[g1].0 && cur[g2].0 == prev[g2].0);
                        }
                    },
                    None => {
                        assert(cur == prev.push((key, seq![(n - 1) as usize])));
                        assert forall|g: int, t: int|
                            0 <= g < cur.len() && 0 <= t < cur[g].1.len() implies (
                        #[trigger] cur[g].1[t]) < n && row_key(kcols, cur[g].1[t] as int) == Some(
                            cur[g].0,
                        ) by {
                            if g < prev.len() {
                                assert(cur[g] == prev[g]);
                                assert(prev[g].1[t] < n - 1);
                                assert(row_key(kcols, prev[g].1[t] as int) == Some(prev[g].0));
                            } else {
                                assert(cur[g].1[t] == (n - 1) as usize);
                            }
                        }
                        assert forall|g: int, t1: int, t2: int|
                            0 <= g < cur.len() && 0 <= t1 < t2 < cur[g].1.len() implies (
                        #[trigger] cur[g].1[t1]) < (#[trigger] cur[g].1[t2]) by {
                            if g < prev.len() {
                                assert(cur[g] == prev[g]);
                                assert(prev[g].1[t1] < prev[g].1[t2]);
                            }
                        }
                        assert forall|g1: int, g2: int|
                            0 <= g1 < g2 < cur.len() implies (#[trigger] cur[g1]).0 != (
                        #[trigger] cur[g2]).0 by {
                            if g2 < prev.len() {
                                assert(cur[g1] == prev[g1] && cur[g2] == prev[g2]);
                            } else {
                                assert(cur[g1] == prev[g1] && cur[g2].0 == key);
                            }
                        }
                    },
                }
            },
        }
    }
}

/// An allowed group-key kind: integer, text or boolean.
pub open spec fn key_kind_ok(dt: DataType) -> bool {
    dt == DataType::Int32 || dt == DataType::String || dt == DataType::Bool
}

/// Every present cell of every key column carries an allowed kind.
pub open spec fn kcols_keyable(kmodel: Seq<Seq<Option<ScalarV>>>, height: int) -> bool {
    forall|t: int, rr: int|
        0 <= t < kmodel.len() && 0 <= rr < height ==> ((#[trigger] kmodel[t][rr]) matches Some(v)
            ==> key_kind_ok(sv_kind(v)))
}

/// The cell sequences of the named key columns.
pub open spec fn kcols_of(cols: Seq<SeriesV>, keys: Seq<Seq<char>>) -> Seq<Seq<Option<ScalarV>>> {
    Seq::new(keys.len(), |k: int| key_cells(cols, keys[k]))
}

/// The model of the grouping state.
pub struct GroupByV {
    pub df: DataFrameV,
    pub keys: Seq<Seq<char>>,
    pub groups: Seq<(Seq<GroupKeyV>, Seq<usize>)>,
}

/// The intermediate state of a grouping: the source table, the key
/// column names, and the computed groups in first-seen key order.
#[derive(Debug)]
pub struct GroupBy {
    pub(crate) df: DataFrame,
    pub(crate) keys: Vec<String>,
    pub(crate) groups: Vec<(GroupKey, Vec<usize>)>,
}

impl View for GroupBy {
    type V = GroupByV;

    open(crate) spec fn view(&self) -> GroupByV {
        GroupByV {
            df: self.df@,
            keys: self.keys.deep_view(),
            groups: Seq::new(
                self.groups@.len(),
                |g: int| (self.groups@[g].0.deep_view(), self.groups@[g].1@),
            ),
        }
    }
}

/// The table invariant, stated of the model.
pub open spec fn frame_wf_v(v: DataFrameV) -> bool {
    &&& (forall|i: int| 0 <= i < v.columns.len() ==> series_wf(#[trigger] v.columns[i]))
    &&& (forall|i: int|
        0 <= i < v.columns.len() ==> (#[trigger] v.columns[i]).cells.len() == v.height)
    &&& crate::table::distinct_names(v.columns)
    &&& (v.columns.len() == 0 ==> v.height == 0)
}

impl GroupBy {
    /// The grouping invariant: the table is well formed, every key names
    /// a column of an allowed kind, and the groups are exactly those of
    /// the table's rows under the keys.
    pub open spec fn wf(&self) -> bool {
        &&& frame_wf_v(self@.df)
        &&& (forall|k: int|
            0 <= k < self@.keys.len() ==> has_col(self@.df.columns, #[trigger] self@.keys[k]))
        &&& (forall|k: int|
            0 <= k < self@.keys.len() ==> (find_col(self@.df.columns, #[trigger] self@.keys[k])
                matches Some(i) ==> key_kind_ok(self@.df.columns[i].dtype)))
        &&& self@.groups == groups_upto(kcols_of(self@.df.columns, self@.keys), self@.df.height)
    }

    /// Computes the grouping of a table by the named key columns: every
    /// key must name a column of integer, text or boolean kind. Rows
    /// whose key holds a missing value join no group.
    pub fn new(df: &DataFrame, keys: Vec<String>) -> (r: AxionResult<GroupBy>)
        requires
            df.wf(),
        ensures
            r is Ok <==> (forall|k: int|
                0 <= k < keys.deep_view().len() ==> has_col(
                    df@.columns,
                    #[trigger] keys.deep_view()[k],
                )) && (forall|k: int|
                0 <= k < keys.deep_view().len() ==> (find_col(
                    df@.columns,
                    #[trigger] keys.deep_view()[k],
                ) matches Some(i) ==> key_kind_ok(df@.columns[i].dtype))),
            r matches Ok(gb) ==> gb.wf() && gb@.df == df@ && gb@.keys == keys.deep_view(),
            r matches Err(e) ==> (e matches AxionError::ColumnNotFound(nm) && keys.deep_view()
                .contains(nm@) && !has_col(df@.columns, nm@)) || (e is UnsupportedOperation
                && (exists|k: int|
                0 <= k < keys.deep_view().len() && (#[trigger] find_col(
                    df@.columns,
                    keys.deep_view()[k],
                ) matches Some(i) && !key_kind_ok(df@.columns[i].dtype)))),
    {
        // the key columns, checked and cloned out of the table
        let nk = keys.len();
        let mut kcols: Vec<Series> = Vec::new();
        let mut k: usize = 0;
        while k < nk
            invariant
                0 <= k <= nk,
                nk == keys.deep_view().len(),
                df.wf(),
                kcols@.len() == k,
                forall|j: int|
                    0 <= j < k ==> has_col(df@.columns, #[trigger] keys.deep_view()[j]),
                forall|j: int|
                    0 <= j < k ==> (find_col(df@.columns, #[trigger] keys.deep_view()[j]) matches
                        Some(i) && kcols@[j]@ == df@.columns[i] && key_kind_ok(
                        df@.columns[i].dtype,
                    )),
            decreases nk - k,
        {
            proof {
                assert(keys.deep_view()[k as int] == keys@[k as int]@);
            }
            let col = match df.column(keys[k].as_str()) {
                Ok(c) => c,
                Err(e) => {
                    proof {
                        assert(keys.deep_view().contains(keys.deep_view()[k as int]));
                    }
                    return Err(e);
                },
            };
            let dt = col.dtype();
            let allowed = dtype_eq(&dt, &DataType::Int32) || dtype_eq(&dt, &DataType::String)
                || dtype_eq(&dt, &DataType::Bool);
            if !allowed {
                let mut msg = String::from_str("the kind of key column ");
                msg.append(keys[k].as_str());
                msg.append(" does not take part in grouping");
                proof {
                    let i = choose|i: int|
                        find_col(df@.columns, keys.deep_view()[k as int]) == Some(i);
                    assert(find_col(df@.columns, keys.deep_view()[k as int]) matches Some(ii)
                        && !key_kind_ok(df@.columns[ii].dtype));
                }
                return Err(AxionError::UnsupportedOperation(msg));
            }
            kcols.push(col.clone());
            k = k + 1;
        }
        let ghost kmodel = kcols_of(df@.columns, keys.deep_view());
        proof {
            assert(kmodel =~= Seq::new(kcols@.len() as nat, |j: int| kcols@[j]@.cells));
            assert forall|j: int| 0 <= j < kcols@.len() implies (#[trigger] kcols@[j])@.cells.len()
                == df@.height && (#[trigger] kmodel[j]) == kcols@[j]@.cells by {
                let i = choose|i: int| find_col(df@.columns, keys.deep_view()[j]) == Some(i);
                lemma_find_col(df@.columns, keys.deep_view()[j]);
                assert(kcols@[j]@ == df@.columns[i]);
            }
            assert forall|t: int, rr: int|
                0 <= t < kmodel.len() && 0 <= rr < df@.height implies ((
            #[trigger] kmodel[t][rr]) matches Some(v) ==> key_kind_ok(sv_kind(v))) by {
                let i = choose|i: int| find_col(df@.columns, keys.deep_view()[t]) == Some(i);
                lemma_find_col(df@.columns, keys.deep_view()[t]);
                assert(kcols@[t]@ == df@.columns[i]);
                assert(series_wf(df@.columns[i]));
                assert(cell_ok(df@.columns[i].cells[rr], df@.columns[i].dtype));
            }
            assert(kcols_keyable(kmodel, df@.height));
        }
        // one pass over the rows, filing each complete key
        let height = df.height();
        let mut groups: Vec<(GroupKey, Vec<usize>)> = Vec::new();
        let ghost gmodel_of = |gs: Seq<(GroupKey, Vec<usize>)>|
            Seq::new(gs.len(), |g: int| (gs[g].0.deep_view(), gs[g].1@));
        let mut row: usize = 0;
        while row < height
            invariant
                0 <= row <= height,
                height == df@.height,
                kmodel == kcols_of(df@.columns, keys.deep_view()),
                nk == keys.deep_view().len(),
                kcols@.len() == nk,
                forall|j: int|
                    0 <= j < nk ==> (#[trigger] kmodel[j]) == kcols@[j]@.cells && kcols@[
                        j
                    ]@.cells.len() == height,
                kcols_keyable(kmodel, height as int),
                Seq::new(groups@.len(), |g: int| (groups@[g].0.deep_view(), groups@[g].1@))
                    == groups_upto(kmodel, row as int),
            decreases height - row,
        {
            // build the row's composite key, bailing on a missing cell
            let mut keyvals: Vec<GroupKeyValue> = Vec::new();
            let mut has_null = false;
            let mut j: usize = 0;
            while j < nk
                invariant
                    0 <= j <= nk,
                    row < height,
                    kcols@.len() == nk,
                    kmodel.len() == nk,
                    kcols_keyable(kmodel, height as int),
                    forall|t: int|
                        0 <= t < nk ==> (#[trigger] kmodel[t]) == kcols@[t]@.cells && kcols@[
                            t
                        ]@.cells.len() == height,
                    !has_null ==> keyvals.deep_view().len() == j,
                    !has_null ==> (forall|t: int|
                        0 <= t < j ==> (#[trigger] kmodel[t])[row as int] is Some
                            && keyvals.deep_view()[t] == sv_to_keyv(
                            kmodel[t][row as int]->0,
                        )),
                    has_null ==> (exists|t: int|
                        0 <= t < nk && (#[trigger] kmodel[t])[row as int] is None),
                decreases nk - j,
            {
                let col = &kcols[j];
                proof {
                    assert(kmodel[j as int] == col@.cells);
                    assert(col@.cells.len() == height);
                    assert(col.data.deep_view()[row as int] == col.data@[row as int].deep_view());
                    assert(kmodel[j as int][row as int] == col.data@[row as int].deep_view());
                }
                match &col.data[row] {
                    Some(v) => {
                        if !has_null {
                            match scalar_to_keyv(v) {
                                Some(kv) => {
                                    keyvals.push(kv);
                                },
                                None => {
                                    // a cell of a kind outside the key set
                                    // cannot occur in a checked key column
                                    has_null = true;
                                    proof {
                                        assert(false);
                                    }
                                },
                            }
                        }
                    },
                    None => {
                        has_null = true;
                    },
                }
                j = j + 1;
            }
            proof {
                lemma_row_key(kmodel, row as int);
                if !has_null {
                    assert(row_key(kmodel, row as int) matches Some(kk) && kk
                        == keyvals.deep_view()) by {
                        assert(row_key(kmodel, row as int) is Some);
                        let kk = row_key(kmodel, row as int)->0;
                        assert forall|t: int| 0 <= t < nk implies kk[t]
                            == keyvals.deep_view()[t] by {
                            assert((#[trigger] kmodel[t])[row as int] is Some);
                            assert(kk[t] == sv_to_keyv(kmodel[t][row as int]->0));
                            assert(keyvals.deep_view()[t] == sv_to_keyv(kmodel[t][row as int]->0));
                        }
                        assert(kk =~= keyvals.deep_view());
                    }
                } else {
                    assert(row_key(kmodel, row as int) is None);
                }
            }
            if !has_null {
                // file the row under its key, first seen first
                let ghost prev = Seq::new(
                    groups@.len(),
                    |g: int| (groups@[g].0.deep_view(), groups@[g].1@),
                );
                let ng = groups.len();
                let mut gi: usize = 0;
                let mut found = false;
                while gi < ng && !found
                    invariant
                        0 <= gi <= ng,
                        ng == groups@.len(),
                        prev == Seq::new(
                            groups@.len(),
                            |g: int| (groups@[g].0.deep_view(), groups@[g].1@),
                        ),
                        !found ==> (forall|t: int|
                            0 <= t < gi ==> (#[trigger] prev[t]).0 != keyvals.deep_view()),
                        found ==> gi < ng && prev[gi as int].0 == keyvals.deep_view() && (forall|
                            t: int,
                        |
                            0 <= t < gi ==> (#[trigger] prev[t]).0 != keyvals.deep_view()),
                    decreases ng - gi + (if found {
                        0int
                    } else {
                        1int
                    }),
                {
                    proof {
                        assert(prev[gi as int].0 == groups@[gi as int].0.deep_view());
                    }
                    if group_key_eq(&groups[gi].0, &keyvals) {
                        found = true;
                    } else {
                        gi = gi + 1;
                    }
                }
                proof {
                    if found {
                        lemma_find_group_at(prev, keyvals.deep_view(), gi as int);
                    } else {
                        lemma_find_group(prev, keyvals.deep_view());
                    }
                }
                if found {
                    let mut entry = groups.remove(gi);
                    entry.1.push(row);
                    groups.insert(gi, entry);
                    proof {
                        assert(Seq::new(
                            groups@.len(),
                            |g: int| (groups@[g].0.deep_view(), groups@[g].1@),
                        ) =~= groups_upto(kmodel, row as int + 1));
                    }
                } else {
                    let mut rows: Vec<usize> = Vec::new();
                    rows.push(row);
                    groups.push((keyvals, rows));
                    proof {
                        assert(rows@ =~= seq![row]);
                        assert(Seq::new(
                            groups@.len(),
                            |g: int| (groups@[g].0.deep_view(), groups@[g].1@),
                        ) =~= groups_upto(kmodel, row as int + 1));
                    }
                }
            }
            row = row + 1;
        }
        let gb = GroupBy { df: df.clone(), keys, groups };
        proof {
            assert(gb@.df == df@);
            assert(gb@.groups =~= groups_upto(kmodel, height as int));
        }
        Ok(gb)
    }
}

impl GroupBy {
    /// A borrow of the grouped table.
    pub fn source(&self) -> (r: &DataFrame)
        ensures
            r@ == self@.df,
    {
        &self.df
    }

    /// A borrow of the key column names.
    pub fn group_keys(&self) -> (r: &Vec<String>)
        ensures
            r.deep_view() == self@.keys,
    {
        &self.keys
    }

    /// A borrow of the computed groups: each distinct key with its
    /// member rows, in first-seen key order.
    pub fn groups(&self) -> (r: &Vec<(GroupKey, Vec<usize>)>)
        ensures
            r@.len() == self@.groups.len(),
            forall|g: int|
                0 <= g < r@.len() ==> (#[trigger] r@[g]).0.deep_view() == self@.groups[g].0 && r@[
                    g
                ].1@ == self@.groups[g].1,
    {
        &self.groups
    }
}

impl DataFrame {
    /// The grouping of this table by the named key columns.
    pub fn groupby(&self, keys: Vec<String>) -> (r: AxionResult<GroupBy>)
        requires
            self.wf(),
        ensures
            r is Ok <==> (forall|k: int|
                0 <= k < keys.deep_view().len() ==> has_col(
                    self@.columns,
                    #[trigger] keys.deep_view()[k],
                )) && (forall|k: int|
                0 <= k < keys.deep_view().len() ==> (find_col(
                    self@.columns,
                    #[trigger] keys.deep_view()[k],
                ) matches Some(i) ==> key_kind_ok(self@.columns[i].dtype))),
            r matches Ok(gb) ==> gb.wf() && gb@.df == self@ && gb@.keys == keys.deep_view(),
            r matches Err(e) ==> (e matches AxionError::ColumnNotFound(nm) && keys.deep_view()
                .contains(nm@) && !has_col(self@.columns, nm@)) || (e is UnsupportedOperation
                && (exists|k: int|
                0 <= k < keys.deep_view().len() && (#[trigger] find_col(
                    self@.columns,
                    keys.deep_view()[k],
                ) matches Some(i) && !key_kind_ok(self@.columns[i].dtype)))),
    {
        GroupBy::new(self, keys)
    }
}

} // verus!
