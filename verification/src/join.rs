//! The join engine: inner, left, right and outer joins over one pair of
//! text-kinded key columns. For each probe-side key the matching rows are
//! found in scan order; unmatched rows are kept or dropped per join kind,
//! and gathered columns from the non-driving side are null-filled where no
//! match exists. A missing key matches a missing key. Colliding column
//! names from the non-driving side get a suffix; the duplicate key column
//! of the non-driving side is omitted.

use vstd::prelude::*;
use crate::dtype::{DataType, dtype_eq};
use crate::error::{AxionError, AxionResult};
use crate::scalar::{Scalar, ScalarV, cell_eq, clone_cell};
use crate::series::{Series, SeriesV, series_wf};
use crate::strutil::str_eq;
use crate::table::{
    DataFrame, DataFrameV, col_views, distinct_names, find_col, has_col, lemma_find_col,
};
use crate::table_ops::{drop_prefix, lemma_drop_prefix_props, lemma_drop_prefix_distinct};
use crate::transform::{gather_opt_model};

verus! {

/// The rows of `keys` (among the first `n`) holding exactly `key`, in
/// row order; a missing key matches a missing key.
pub open spec fn matches_upto(keys: Seq<Option<ScalarV>>, key: Option<ScalarV>, n: int) -> Seq<
    usize,
>
    decreases n,
{
    if n <= 0 {
        Seq::empty()
    } else {
        let rest = matches_upto(keys, key, n - 1);
        if keys[n - 1] == key {
            rest.push((n - 1) as usize)
        } else {
            rest
        }
    }
}

/// The rows of `keys` holding exactly `key`, in row order.
pub open spec fn match_indices(keys: Seq<Option<ScalarV>>, key: Option<ScalarV>) -> Seq<usize> {
    matches_upto(keys, key, keys.len() as int)
}

/// Every matched row is in bounds.
pub proof fn lemma_matches_upto_bounds(keys: Seq<Option<ScalarV>>, key: Option<ScalarV>, n: int)
    requires
        n <= keys.len(),
    ensures
        forall|k: int|
            0 <= k < matches_upto(keys, key, n).len() ==> (#[trigger] matches_upto(
                keys,
                key,
                n,
            )[k]) < n,
    decreases n,
{
    if n > 0 {
        lemma_matches_upto_bounds(keys, key, n - 1);
        let rest = matches_upto(keys, key, n - 1);
        assert forall|k: int| 0 <= k < matches_upto(keys, key, n).len() implies (
        #[trigger] matches_upto(keys, key, n)[k]) < n by {
            if k < rest.len() {
                assert(matches_upto(keys, key, n)[k] == rest[k]);
            }
        }
    }
}

/// The scan-side row indices of an inner join, one per match, grouped by
/// scan row in scan order.
pub open spec fn inner_scan_upto(
    sk: Seq<Option<ScalarV>>,
    pk: Seq<Option<ScalarV>>,
    n: int,
) -> Seq<usize>
    decreases n,
{
    if n <= 0 {
        Seq::empty()
    } else {
        inner_scan_upto(sk, pk, n - 1) + Seq::new(
            match_indices(pk, sk[n - 1]).len(),
            |j: int| (n - 1) as usize,
        )
    }
}

/// The probe-side row indices of an inner join, aligned with
/// `inner_scan_upto`.
pub open spec fn inner_probe_upto(
    sk: Seq<Option<ScalarV>>,
    pk: Seq<Option<ScalarV>>,
    n: int,
) -> Seq<usize>
    decreases n,
{
    if n <= 0 {
        Seq::empty()
    } else {
        inner_probe_upto(sk, pk, n - 1) + match_indices(pk, sk[n - 1])
    }
}

/// The scan-side row indices of a left-style join: a scan row with no
/// match still contributes one output row.
pub open spec fn keep_scan_upto(
    sk: Seq<Option<ScalarV>>,
    pk: Seq<Option<ScalarV>>,
    n: int,
) -> Seq<usize>
    decreases n,
{
    if n <= 0 {
        Seq::empty()
    } else {
        let m = match_indices(pk, sk[n - 1]).len();
        keep_scan_upto(sk, pk, n - 1) + Seq::new(
            if m == 0 {
                1
            } else {
                m
            },
            |j: int| (n - 1) as usize,
        )
    }
}

/// The probe-side row indices of a left-style join, `None` where the
/// scan row found no match.
pub open spec fn keep_probe_upto(
    sk: Seq<Option<ScalarV>>,
    pk: Seq<Option<ScalarV>>,
    n: int,
) -> Seq<Option<usize>>
    decreases n,
{
    if n <= 0 {
        Seq::empty()
    } else {
        let ms = match_indices(pk, sk[n - 1]);
        keep_probe_upto(sk, pk, n - 1) + (if ms.len() == 0 {
            seq![None]
        } else {
            Seq::new(ms.len(), |j: int| Some(ms[j]))
        })
    }
}

/// The probe rows no scan row matched, in row order.
pub open spec fn unmatched_upto(
    sk: Seq<Option<ScalarV>>,
    pk: Seq<Option<ScalarV>>,
    n: int,
) -> Seq<usize>
    decreases n,
{
    if n <= 0 {
        Seq::empty()
    } else {
        let rest = unmatched_upto(sk, pk, n - 1);
        if match_indices(sk, pk[n - 1]).len() == 0 {
            rest.push((n - 1) as usize)
        } else {
            rest
        }
    }
}

/// Concrete row indices as gap-free gather positions.
pub open spec fn some_ids(s: Seq<usize>) -> Seq<Option<usize>> {
    Seq::new(s.len(), |j: int| Some(s[j]))
}

/// Appends the output rows one scan row contributes: one row per match,
/// or (for the joins that keep unmatched scan rows) a single null-probed
/// row when there is none.
fn push_pairs(
    sids: &mut Vec<Option<usize>>,
    pids: &mut Vec<Option<usize>>,
    i: usize,
    ms: &Vec<usize>,
    keep_unmatched: bool,
)
    ensures
        final(sids)@ == old(sids)@ + (if ms@.len() == 0 && keep_unmatched {
            seq![Some(i)]
        } else {
            Seq::new(ms@.len(), |j: int| Some(i))
        }),
        final(pids)@ == old(pids)@ + (if ms@.len() == 0 && keep_unmatched {
            seq![None]
        } else {
            some_ids(ms@)
        }),
{
    let m = ms.len();
    if m == 0 && keep_unmatched {
        sids.push(Some(i));
        pids.push(None);
        proof {
            assert(sids@ =~= old(sids)@ + seq![Some(i)]);
            assert(pids@ =~= old(pids)@ + seq![None]);
        }
        return ;
    }
    let mut t: usize = 0;
    while t < m
        invariant
            0 <= t <= m,
            m == ms@.len(),
            sids@ == old(sids)@ + Seq::new(t as nat, |j: int| Some(i)),
            pids@ == old(pids)@ + some_ids(ms@.take(t as int)),
        decreases m - t,
    {
        sids.push(Some(i));
        pids.push(Some(ms[t]));
        proof {
            assert(sids@ =~= old(sids)@ + Seq::new(t as nat + 1, |j: int| Some(i)));
            assert(pids@ =~= old(pids)@ + some_ids(ms@.take(t as int + 1)));
        }
        t = t + 1;
    }
    proof {
        assert(ms@.take(m as int) =~= ms@);
        assert(sids@ =~= old(sids)@ + Seq::new(m as nat, |j: int| Some(i)));
    }
}

/// The rows that match a key, as an executable scan.
fn matches_of(probe: &Series, key: &Option<Scalar>) -> (r: Vec<usize>)
    ensures
        r@ == match_indices(probe@.cells, key.deep_view()),
        forall|k: int| 0 <= k < r@.len() ==> #[trigger] r@[k] < probe@.cells.len(),
{
    let n = probe.data.len();
    let mut out: Vec<usize> = Vec::new();
    let mut i: usize = 0;
    while i < n
        invariant
            0 <= i <= n,
            n == probe@.cells.len(),
            out@ == matches_upto(probe@.cells, key.deep_view(), i as int),
        decreases n - i,
    {
        proof {
            assert(probe.data.deep_view()[i as int] == probe.data@[i as int].deep_view());
        }
        if cell_eq(&probe.data[i], key) {
            out.push(i);
        }
        i = i + 1;
    }
    proof {
        lemma_matches_upto_bounds(probe@.cells, key.deep_view(), n as int);
    }
    out
}

/// The name a secondary (non-driving) column carries in the output:
/// suffixed when it collides with a primary name.
pub open spec fn sec_out_name(primary: Seq<SeriesV>, name: Seq<char>, suffix: Seq<char>) -> Seq<
    char,
> {
    if has_col(primary, name) {
        name + suffix
    } else {
        name
    }
}

/// The output of a secondary (non-driving) column: its cells gathered
/// with gaps, its name suffixed when it collides with a primary name.
pub open spec fn secondary_view(
    primary: Seq<SeriesV>,
    col: SeriesV,
    ids: Seq<Option<usize>>,
    suffix: Seq<char>,
) -> SeriesV {
    SeriesV {
        name: sec_out_name(primary, col.name, suffix),
        cells: gather_opt_model(col.cells, ids),
        ..col
    }
}

/// The names the assembled join result carries, in column order: every
/// primary name, then each surviving secondary name, suffixed where it
/// collides.
pub open spec fn joined_names(
    primary: Seq<SeriesV>,
    secondary: Seq<SeriesV>,
    key: Seq<char>,
    suffix: Seq<char>,
) -> Seq<Seq<char>> {
    let dropped = crate::table_ops::drop_prefix(secondary, key, secondary.len() as int);
    Seq::new(
        (primary.len() + dropped.len()) as nat,
        |k: int|
            if k < primary.len() {
                primary[k].name
            } else {
                sec_out_name(primary, dropped[k - primary.len()].name, suffix)
            },
    )
}

/// No two output columns of the join would share a name; on this alone
/// the assembled result's validation can still fail.
pub open spec fn joined_names_ok(
    primary: Seq<SeriesV>,
    secondary: Seq<SeriesV>,
    key: Seq<char>,
    suffix: Seq<char>,
) -> bool {
    forall|p: int, q: int|
        0 <= p < q < joined_names(primary, secondary, key, suffix).len() ==> #[trigger] joined_names(
            primary,
            secondary,
            key,
            suffix,
        )[p] != #[trigger] joined_names(primary, secondary, key, suffix)[q]
}

/// A usable join key: the named column exists and is text-kinded.
pub open spec fn join_key_ok(cols: Seq<SeriesV>, name: Seq<char>) -> bool {
    has_col(cols, name) && (find_col(cols, name) matches Some(i) ==> cols[i].dtype
        == DataType::String)
}

/// The cells of the named key column.
pub open spec fn key_cells(cols: Seq<SeriesV>, name: Seq<char>) -> Seq<Option<ScalarV>> {
    match find_col(cols, name) {
        Some(i) => cols[i].cells,
        None => Seq::empty(),
    }
}

impl DataFrame {
    /// The key column for a join: it must exist and be text-kinded.
    fn join_key_col(&self, name: &str, side: &str) -> (r: AxionResult<&Series>)
        ensures
            r is Ok <==> (has_col(self@.columns, name@) && (find_col(self@.columns, name@) matches
            Some(i) ==> self@.columns[i].dtype == DataType::String)),
            r matches Ok(c) ==> (find_col(self@.columns, name@) matches Some(i) && c@
                == self@.columns[i] && c@.dtype == DataType::String),
            r matches Err(e) ==> (e is ColumnNotFound && !has_col(self@.columns, name@)) || (
            e matches AxionError::JoinKeyTypeError { side: s, name: nm, expected, found } && s@
                == side@ && nm@ == name@ && expected == DataType::String && (find_col(
                self@.columns,
                name@,
            ) matches Some(i) && found == self@.columns[i].dtype && found != DataType::String)),
    {
        let col = match self.column(name) {
            Ok(c) => c,
            Err(e) => {
                return Err(e);
            },
        };
        let found = col.dtype();
        if dtype_eq(&found, &DataType::String) {
            Ok(col)
        } else {
            Err(
                AxionError::JoinKeyTypeError {
                    side: String::from_str(side),
                    name: String::from_str(name),
                    expected: DataType::String,
                    found,
                },
            )
        }
    }

    /// Assembles a join result: every primary column gathered by the
    /// primary row indices, then every secondary column except the
    /// secondary key, gathered by the secondary indices and suffixed on a
    /// name collision.
    fn assemble_join(
        primary: &DataFrame,
        secondary: &DataFrame,
        secondary_key: &str,
        primary_ids: &Vec<Option<usize>>,
        secondary_ids: &Vec<Option<usize>>,
        suffix: &str,
    ) -> (r: AxionResult<DataFrame>)
        requires
            primary.wf(),
            secondary.wf(),
            primary@.columns.len() > 0,
            primary_ids.deep_view().len() == secondary_ids.deep_view().len(),
            forall|j: int|
                0 <= j < primary_ids.deep_view().len() ==> (
                #[trigger] primary_ids.deep_view()[j] matches Some(k) ==> k < primary@.height),
            forall|j: int|
                0 <= j < secondary_ids.deep_view().len() ==> (
                #[trigger] secondary_ids.deep_view()[j] matches Some(k) ==> k
                    < secondary@.height),
        ensures
            r matches Ok(df) ==> {
                let dropped = drop_prefix(
                    secondary@.columns,
                    secondary_key@,
                    secondary@.columns.len() as int,
                );
                &&& df.wf()
                &&& df@.height == primary_ids.deep_view().len()
                &&& df@.columns.len() == primary@.columns.len() + dropped.len()
                &&& (forall|i: int|
                    0 <= i < primary@.columns.len() ==> (#[trigger] df@.columns[i]) == (SeriesV {
                        cells: gather_opt_model(
                            primary@.columns[i].cells,
                            primary_ids.deep_view(),
                        ),
                        sorted_asc: df@.columns[i].sorted_asc,
                        sorted_desc: df@.columns[i].sorted_desc,
                        ..primary@.columns[i]
                    }))
                &&& (forall|k: int|
                    0 <= k < dropped.len() ==> (#[trigger] df@.columns[primary@.columns.len() + k])
                        == (SeriesV {
                        sorted_asc: df@.columns[primary@.columns.len() + k].sorted_asc,
                        sorted_desc: df@.columns[primary@.columns.len() + k].sorted_desc,
                        ..secondary_view(
                            primary@.columns,
                            dropped[k],
                            secondary_ids.deep_view(),
                            suffix@,
                        )
                    }))
            },
            r is Ok <==> joined_names_ok(
                primary@.columns,
                secondary@.columns,
                secondary_key@,
                suffix@,
            ),
            r matches Err(e) ==> e is DuplicateColumnName,
    {
        let ghost dropped = drop_prefix(
            secondary@.columns,
            secondary_key@,
            secondary@.columns.len() as int,
        );
        let out_len = primary_ids.len();
        let np = primary.columns.len();
        let mut cols: Vec<Series> = Vec::new();
        let mut i: usize = 0;
        while i < np
            invariant
                0 <= i <= np,
                np == primary@.columns.len(),
                primary.wf(),
                out_len == primary_ids.deep_view().len(),
                forall|j: int|
                    0 <= j < primary_ids.deep_view().len() ==> (
                    #[trigger] primary_ids.deep_view()[j] matches Some(k) ==> k
                        < primary@.height),
                cols@.len() == i,
                forall|k: int|
                    0 <= k < i ==> (#[trigger] cols@[k])@.cells == gather_opt_model(
                        primary@.columns[k].cells,
                        primary_ids.deep_view(),
                    ) && cols@[k]@.name == primary@.columns[k].name && cols@[k]@.dtype
                        == primary@.columns[k].dtype && series_wf(cols@[k]@),
            decreases np - i,
        {
            proof {
                assert(primary@.columns[i as int] == primary.columns@[i as int]@);
            }
            let g = match primary.columns[i].take_indices_option(primary_ids) {
                Ok(g) => g,
                Err(_) => {
                    proof {
                        assert(false);
                    }
                    return Err(AxionError::InternalError(String::from_str("join gather")));
                },
            };
            cols.push(g);
            i = i + 1;
        }
        // the secondary columns, the duplicate key column omitted
        let ns = secondary.columns.len();
        let mut s: usize = 0;
        while s < ns
            invariant
                0 <= s <= ns,
                ns == secondary@.columns.len(),
                np == primary@.columns.len(),
                primary.wf(),
                secondary.wf(),
                out_len == primary_ids.deep_view().len(),
                out_len == secondary_ids.deep_view().len(),
                forall|j: int|
                    0 <= j < secondary_ids.deep_view().len() ==> (
                    #[trigger] secondary_ids.deep_view()[j] matches Some(k) ==> k
                        < secondary@.height),
                cols@.len() == np + drop_prefix(secondary@.columns, secondary_key@, s as int).len(),
                forall|k: int|
                    0 <= k < np ==> (#[trigger] cols@[k])@.cells == gather_opt_model(
                        primary@.columns[k].cells,
                        primary_ids.deep_view(),
                    ) && cols@[k]@.name == primary@.columns[k].name && cols@[k]@.dtype
                        == primary@.columns[k].dtype && series_wf(cols@[k]@),
                forall|k: int|
                    0 <= k < drop_prefix(secondary@.columns, secondary_key@, s as int).len() ==> {
                        let want = secondary_view(
                            primary@.columns,
                            drop_prefix(secondary@.columns, secondary_key@, s as int)[k],
                            secondary_ids.deep_view(),
                            suffix@,
                        );
                        (#[trigger] cols@[np + k])@.cells == want.cells && cols@[np + k]@.name
                            == want.name && cols@[np + k]@.dtype == want.dtype && series_wf(
                            cols@[np + k]@,
                        )
                    },
            decreases ns - s,
        {
            proof {
                assert(secondary@.columns[s as int] == secondary.columns@[s as int]@);
            }
            if !str_eq(secondary.columns[s].name(), secondary_key) {
                let g = match secondary.columns[s].take_indices_option(secondary_ids) {
                    Ok(g) => g,
                    Err(_) => {
                        proof {
                            assert(false);
                        }
                        return Err(AxionError::InternalError(String::from_str("join gather")));
                    },
                };
                // suffix the name when it collides with a primary name
                let mut collides = false;
                let mut p: usize = 0;
                while p < np
                    invariant
                        0 <= p <= np,
                        np == primary@.columns.len(),
                        g@.name == secondary@.columns[s as int].name,
                        collides ==> has_col(primary@.columns, g@.name),
                        !collides ==> (forall|t: int|
                            0 <= t < p ==> (#[trigger] primary@.columns[t]).name != g@.name),
                    decreases np - p,
                {
                    proof {
                        assert(primary@.columns[p as int] == primary.columns@[p as int]@);
                    }
                    if str_eq(primary.columns[p].name(), g.name()) {
                        proof {
                            crate::table::lemma_find_col_at_any(primary@.columns, g@.name, p as int);
                        }
                        collides = true;
                    }
                    p = p + 1;
                }
                let g = if collides {
                    let mut nm = String::from_str(g.name());
                    nm.append(suffix);
                    g.with_name(nm)
                } else {
                    proof {
                        lemma_find_col(primary@.columns, g@.name);
                    }
                    g
                };
                cols.push(g);
                proof {
                    assert(drop_prefix(secondary@.columns, secondary_key@, s as int + 1)
                        =~= drop_prefix(secondary@.columns, secondary_key@, s as int).push(
                        secondary@.columns[s as int],
                    ));
                }
            } else {
                proof {
                    assert(drop_prefix(secondary@.columns, secondary_key@, s as int + 1)
                        =~= drop_prefix(secondary@.columns, secondary_key@, s as int));
                }
            }
            s = s + 1;
        }
        let ghost views = col_views(cols@);
        proof {
            assert forall|k: int| 0 <= k < cols@.len() implies (#[trigger] cols@[k]).wf()
                && views[k].cells.len() == out_len by {
                assert(views[k] == cols@[k]@);
                if k < np {
                    assert(cols@[k]@.cells == gather_opt_model(
                        primary@.columns[k].cells,
                        primary_ids.deep_view(),
                    ) && series_wf(cols@[k]@));
                } else {
                    let kk = k - np;
                    assert(cols@[np + kk]@.cells == secondary_view(
                        primary@.columns,
                        dropped[kk],
                        secondary_ids.deep_view(),
                        suffix@,
                    ).cells && series_wf(cols@[np + kk]@));
                }
            }
            assert(crate::table::equal_heights(views));
            // the output names, column for column, are the join's stated
            // names; so the constructor's uniqueness check decides exactly
            // the stated name condition
            let jn = joined_names(primary@.columns, secondary@.columns, secondary_key@, suffix@);
            assert(jn.len() == views.len());
            assert forall|k: int| 0 <= k < views.len() implies (#[trigger] views[k]).name
                == jn[k] by {
                assert(views[k] == cols@[k]@);
                if k >= np {
                    let kk = k - np;
                    assert(cols@[np + kk]@.name == secondary_view(
                        primary@.columns,
                        dropped[kk],
                        secondary_ids.deep_view(),
                        suffix@,
                    ).name);
                }
            }
            if crate::table::distinct_names(views) {
                assert forall|p: int, q: int| 0 <= p < q < jn.len() implies #[trigger] jn[p] != (
                #[trigger] jn[q]) by {
                    assert(views[p].name == jn[p] && views[q].name == jn[q]);
                }
                assert(joined_names_ok(
                    primary@.columns,
                    secondary@.columns,
                    secondary_key@,
                    suffix@,
                ));
            }
            if joined_names_ok(primary@.columns, secondary@.columns, secondary_key@, suffix@) {
                assert forall|p: int, q: int|
                    0 <= p < q < views.len() implies (#[trigger] views[p]).name != (
                #[trigger] views[q]).name by {
                    assert(jn[p] != jn[q]);
                    assert(views[p].name == jn[p] && views[q].name == jn[q]);
                }
                assert(crate::table::distinct_names(views));
            }
        }
        // the validated constructor re-checks name uniqueness: a suffixed
        // name can still collide with an existing one
        let df = match DataFrame::new(cols) {
            Ok(df) => df,
            Err(e) => {
                proof {
                    assert(!joined_names_ok(
                        primary@.columns,
                        secondary@.columns,
                        secondary_key@,
                        suffix@,
                    ));
                }
                return Err(e);
            },
        };
        proof {
            assert(df@.height == out_len) by {
                assert(views.len() > 0);
                assert(views[0].cells.len() == out_len);
            }
            assert forall|i: int| 0 <= i < np implies (#[trigger] df@.columns[i]) == (SeriesV {
                cells: gather_opt_model(primary@.columns[i].cells, primary_ids.deep_view()),
                sorted_asc: df@.columns[i].sorted_asc,
                sorted_desc: df@.columns[i].sorted_desc,
                ..primary@.columns[i]
            }) by {
                assert(df@.columns[i] == cols@[i]@);
            }
            assert forall|k: int| 0 <= k < dropped.len() implies (#[trigger] df@.columns[np + k])
                == (SeriesV {
                sorted_asc: df@.columns[np + k].sorted_asc,
                sorted_desc: df@.columns[np + k].sorted_desc,
                ..secondary_view(primary@.columns, dropped[k], secondary_ids.deep_view(), suffix@)
            }) by {
                assert(df@.columns[np + k] == cols@[np + k]@);
            }
        }
        Ok(df)
    }
}

/// The scan-side gather positions of a whole join pass.
pub open spec fn scan_ids_upto(
    sk: Seq<Option<ScalarV>>,
    pk: Seq<Option<ScalarV>>,
    keep_unmatched: bool,
    n: int,
) -> Seq<Option<usize>> {
    if keep_unmatched {
        some_ids(keep_scan_upto(sk, pk, n))
    } else {
        some_ids(inner_scan_upto(sk, pk, n))
    }
}

/// The probe-side gather positions of a whole join pass.
pub open spec fn probe_ids_upto(
    sk: Seq<Option<ScalarV>>,
    pk: Seq<Option<ScalarV>>,
    keep_unmatched: bool,
    n: int,
) -> Seq<Option<usize>> {
    if keep_unmatched {
        keep_probe_upto(sk, pk, n)
    } else {
        some_ids(inner_probe_upto(sk, pk, n))
    }
}

/// Builds the two gather-position vectors of a join pass: scanning the
/// scan-side keys in row order, each match becomes one output row; when
/// `keep_unmatched`, a scan row without matches becomes one null-probed
/// output row.
fn build_scan_ids(scan: &Series, probe: &Series, keep_unmatched: bool) -> (r: (
    Vec<Option<usize>>,
    Vec<Option<usize>>,
))
    ensures
        r.0@ == scan_ids_upto(scan@.cells, probe@.cells, keep_unmatched, scan@.cells.len() as int),
        r.1@ == probe_ids_upto(
            scan@.cells,
            probe@.cells,
            keep_unmatched,
            scan@.cells.len() as int,
        ),
        r.0@.len() == r.1@.len(),
        forall|j: int|
            0 <= j < r.0@.len() ==> (#[trigger] r.0@[j] matches Some(k) ==> k
                < scan@.cells.len()),
        forall|j: int|
            0 <= j < r.1@.len() ==> (#[trigger] r.1@[j] matches Some(k) ==> k
                < probe@.cells.len()),
{
    let ghost sk = scan@.cells;
    let ghost pk = probe@.cells;
    let n = scan.data.len();
    let mut sids: Vec<Option<usize>> = Vec::new();
    let mut pids: Vec<Option<usize>> = Vec::new();
    let mut i: usize = 0;
    while i < n
        invariant
            0 <= i <= n,
            n == sk.len(),
            sk == scan@.cells,
            pk == probe@.cells,
            sids@ == scan_ids_upto(sk, pk, keep_unmatched, i as int),
            pids@ == probe_ids_upto(sk, pk, keep_unmatched, i as int),
            sids@.len() == pids@.len(),
            forall|j: int|
                0 <= j < sids@.len() ==> (#[trigger] sids@[j] matches Some(k) ==> k < n),
            forall|j: int|
                0 <= j < pids@.len() ==> (#[trigger] pids@[j] matches Some(k) ==> k < pk.len()),
        decreases n - i,
    {
        proof {
            assert(scan.data.deep_view()[i as int] == scan.data@[i as int].deep_view());
        }
        let ms = matches_of(probe, &scan.data[i]);
        proof {
            assert(ms@ == match_indices(pk, sk[i as int]));
        }
        push_pairs(&mut sids, &mut pids, i, &ms, keep_unmatched);
        proof {
            let m = match_indices(pk, sk[i as int]).len();
            if keep_unmatched {
                if m == 0 {
                    assert(sids@ =~= some_ids(keep_scan_upto(sk, pk, i as int + 1)));
                    assert(pids@ =~= keep_probe_upto(sk, pk, i as int + 1));
                } else {
                    assert(sids@ =~= some_ids(keep_scan_upto(sk, pk, i as int + 1)));
                    assert(pids@ =~= keep_probe_upto(sk, pk, i as int + 1));
                }
            } else {
                assert(sids@ =~= some_ids(inner_scan_upto(sk, pk, i as int + 1)));
                assert(pids@ =~= some_ids(inner_probe_upto(sk, pk, i as int + 1)));
            }
        }
        i = i + 1;
    }
    (sids, pids)
}

impl DataFrame {
    /// Inner join on one text-kinded key column per side: one output row
    /// per matching pair of rows, in left-row order with matches in
    /// right-row order; unmatched rows of either side are dropped. The
    /// right key column is omitted; colliding right column names get a
    /// `_right` suffix.
    pub fn inner_join(&self, right: &DataFrame, left_on: &str, right_on: &str) -> (r: AxionResult<
        DataFrame,
    >)
        requires
            self.wf(),
            right.wf(),
        ensures
            r is Ok <==> join_key_ok(self@.columns, left_on@) && join_key_ok(
                right@.columns,
                right_on@,
            ) && joined_names_ok(self@.columns, right@.columns, right_on@, "_right"@),
            r matches Err(e) ==> !join_key_ok(self@.columns, left_on@) || !join_key_ok(
                right@.columns,
                right_on@,
            ) || e is DuplicateColumnName,
            r matches Ok(df) ==> ({
                let lk = key_cells(self@.columns, left_on@);
                let rk = key_cells(right@.columns, right_on@);
                let sids = some_ids(inner_scan_upto(lk, rk, lk.len() as int));
                let pids = some_ids(inner_probe_upto(lk, rk, lk.len() as int));
                let dropped = drop_prefix(right@.columns, right_on@, right@.columns.len() as int);
                &&& df.wf()
                &&& df@.height == sids.len()
                &&& df@.columns.len() == self@.columns.len() + dropped.len()
                &&& (forall|i: int|
                    0 <= i < self@.columns.len() ==> (#[trigger] df@.columns[i]).cells
                        == gather_opt_model((#[trigger] self@.columns[i]).cells, sids)
                        && df@.columns[i].name == self@.columns[i].name && df@.columns[i].dtype
                        == self@.columns[i].dtype)
                &&& (forall|k: int|
                    0 <= k < dropped.len() ==> (#[trigger] df@.columns[self@.columns.len()
                        + k]).cells == gather_opt_model((#[trigger] dropped[k]).cells, pids)
                        && df@.columns[self@.columns.len() + k].name == secondary_view(
                        self@.columns,
                        dropped[k],
                        pids,
                        "_right"@,
                    ).name && df@.columns[self@.columns.len() + k].dtype == dropped[k].dtype)
            }),
    {
        let lcol = match self.join_key_col(left_on, "left") {
            Ok(c) => c,
            Err(e) => {
                return Err(e);
            },
        };
        let rcol = match right.join_key_col(right_on, "right") {
            Ok(c) => c,
            Err(e) => {
                return Err(e);
            },
        };
        proof {
            lemma_find_col(self@.columns, left_on@);
            lemma_find_col(right@.columns, right_on@);
            assert(lcol@.cells.len() == self@.height);
            assert(rcol@.cells.len() == right@.height);
        }
        let (sids, pids) = build_scan_ids(lcol, rcol, false);
        let out = DataFrame::assemble_join(self, right, right_on, &sids, &pids, "_right");
        proof {
            assert(sids.deep_view() =~= sids@);
            assert(pids.deep_view() =~= pids@);
        }
        out
    }

    /// Left join: every matching pair as in the inner join, plus one
    /// null-filled output row for every left row without a match.
    pub fn left_join(&self, right: &DataFrame, left_on: &str, right_on: &str) -> (r: AxionResult<
        DataFrame,
    >)
        requires
            self.wf(),
            right.wf(),
        ensures
            r is Ok <==> join_key_ok(self@.columns, left_on@) && join_key_ok(
                right@.columns,
                right_on@,
            ) && joined_names_ok(self@.columns, right@.columns, right_on@, "_right"@),
            r matches Err(e) ==> !join_key_ok(self@.columns, left_on@) || !join_key_ok(
                right@.columns,
                right_on@,
            ) || e is DuplicateColumnName,
            r matches Ok(df) ==> ({
                let lk = key_cells(self@.columns, left_on@);
                let rk = key_cells(right@.columns, right_on@);
                let sids = some_ids(keep_scan_upto(lk, rk, lk.len() as int));
                let pids = keep_probe_upto(lk, rk, lk.len() as int);
                let dropped = drop_prefix(right@.columns, right_on@, right@.columns.len() as int);
                &&& df.wf()
                &&& df@.height == sids.len()
                &&& df@.columns.len() == self@.columns.len() + dropped.len()
                &&& (forall|i: int|
                    0 <= i < self@.columns.len() ==> (#[trigger] df@.columns[i]).cells
                        == gather_opt_model((#[trigger] self@.columns[i]).cells, sids)
                        && df@.columns[i].name == self@.columns[i].name && df@.columns[i].dtype
                        == self@.columns[i].dtype)
                &&& (forall|k: int|
                    0 <= k < dropped.len() ==> (#[trigger] df@.columns[self@.columns.len()
                        + k]).cells == gather_opt_model((#[trigger] dropped[k]).cells, pids)
                        && df@.columns[self@.columns.len() + k].name == secondary_view(
                        self@.columns,
                        dropped[k],
                        pids,
                        "_right"@,
                    ).name && df@.columns[self@.columns.len() + k].dtype == dropped[k].dtype)
            }),
    {
        let lcol = match self.join_key_col(left_on, "left") {
            Ok(c) => c,
            Err(e) => {
                return Err(e);
            },
        };
        let rcol = match right.join_key_col(right_on, "right") {
            Ok(c) => c,
            Err(e) => {
                return Err(e);
            },
        };
        proof {
            lemma_find_col(self@.columns, left_on@);
            lemma_find_col(right@.columns, right_on@);
        }
        let (sids, pids) = build_scan_ids(lcol, rcol, true);
        let out = DataFrame::assemble_join(self, right, right_on, &sids, &pids, "_right");
        proof {
            assert(sids.deep_view() =~= sids@);
            assert(pids.deep_view() =~= pids@);
        }
        out
    }

    /// Right join: the mirror of the left join. The right table drives:
    /// its columns come first, every right row is kept, and unmatched
    /// rows are null-filled on the left side; colliding left column names
    /// get a `_left` suffix and the left key column is omitted.
    pub fn right_join(&self, right: &DataFrame, left_on: &str, right_on: &str) -> (r: AxionResult<
        DataFrame,
    >)
        requires
            self.wf(),
            right.wf(),
        ensures
            r is Ok <==> join_key_ok(self@.columns, left_on@) && join_key_ok(
                right@.columns,
                right_on@,
            ) && joined_names_ok(right@.columns, self@.columns, left_on@, "_left"@),
            r matches Err(e) ==> !join_key_ok(self@.columns, left_on@) || !join_key_ok(
                right@.columns,
                right_on@,
            ) || e is DuplicateColumnName,
            r matches Ok(df) ==> ({
                let lk = key_cells(self@.columns, left_on@);
                let rk = key_cells(right@.columns, right_on@);
                let sids = some_ids(keep_scan_upto(rk, lk, rk.len() as int));
                let pids = keep_probe_upto(rk, lk, rk.len() as int);
                let dropped = drop_prefix(self@.columns, left_on@, self@.columns.len() as int);
                &&& df.wf()
                &&& df@.height == sids.len()
                &&& df@.columns.len() == right@.columns.len() + dropped.len()
                &&& (forall|i: int|
                    0 <= i < right@.columns.len() ==> (#[trigger] df@.columns[i]).cells
                        == gather_opt_model((#[trigger] right@.columns[i]).cells, sids)
                        && df@.columns[i].name == right@.columns[i].name && df@.columns[i].dtype
                        == right@.columns[i].dtype)
                &&& (forall|k: int|
                    0 <= k < dropped.len() ==> (#[trigger] df@.columns[right@.columns.len()
                        + k]).cells == gather_opt_model((#[trigger] dropped[k]).cells, pids)
                        && df@.columns[right@.columns.len() + k].name == secondary_view(
                        right@.columns,
                        dropped[k],
                        pids,
                        "_left"@,
                    ).name && df@.columns[right@.columns.len() + k].dtype == dropped[k].dtype)
            }),
    {
        let lcol = match self.join_key_col(left_on, "left") {
            Ok(c) => c,
            Err(e) => {
                return Err(e);
            },
        };
        let rcol = match right.join_key_col(right_on, "right") {
            Ok(c) => c,
            Err(e) => {
                return Err(e);
            },
        };
        proof {
            lemma_find_col(self@.columns, left_on@);
            lemma_find_col(right@.columns, right_on@);
        }
        let (sids, pids) = build_scan_ids(rcol, lcol, true);
        let out = DataFrame::assemble_join(right, self, left_on, &sids, &pids, "_left");
        proof {
            assert(sids.deep_view() =~= sids@);
            assert(pids.deep_view() =~= pids@);
        }
        out
    }

    /// Outer join: the whole left-join pass, then one null-filled output
    /// row for every right row no left row matched.
    pub fn outer_join(&self, right: &DataFrame, left_on: &str, right_on: &str) -> (r: AxionResult<
        DataFrame,
    >)
        requires
            self.wf(),
            right.wf(),
        ensures
            r is Ok <==> join_key_ok(self@.columns, left_on@) && join_key_ok(
                right@.columns,
                right_on@,
            ) && joined_names_ok(self@.columns, right@.columns, right_on@, "_right"@),
            r matches Err(e) ==> !join_key_ok(self@.columns, left_on@) || !join_key_ok(
                right@.columns,
                right_on@,
            ) || e is DuplicateColumnName,
            r matches Ok(df) ==> ({
                let lk = key_cells(self@.columns, left_on@);
                let rk = key_cells(right@.columns, right_on@);
                let unm = unmatched_upto(lk, rk, rk.len() as int);
                let sids = some_ids(keep_scan_upto(lk, rk, lk.len() as int)) + Seq::new(
                    unm.len(),
                    |j: int| None,
                );
                let pids = keep_probe_upto(lk, rk, lk.len() as int) + some_ids(unm);
                let dropped = drop_prefix(right@.columns, right_on@, right@.columns.len() as int);
                &&& df.wf()
                &&& df@.height == sids.len()
                &&& df@.columns.len() == self@.columns.len() + dropped.len()
                &&& (forall|i: int|
                    0 <= i < self@.columns.len() ==> (#[trigger] df@.columns[i]).cells
                        == gather_opt_model((#[trigger] self@.columns[i]).cells, sids)
                        && df@.columns[i].name == self@.columns[i].name && df@.columns[i].dtype
                        == self@.columns[i].dtype)
                &&& (forall|k: int|
                    0 <= k < dropped.len() ==> (#[trigger] df@.columns[self@.columns.len()
                        + k]).cells == gather_opt_model((#[trigger] dropped[k]).cells, pids)
                        && df@.columns[self@.columns.len() + k].name == secondary_view(
                        self@.columns,
                        dropped[k],
                        pids,
                        "_right"@,
                    ).name && df@.columns[self@.columns.len() + k].dtype == dropped[k].dtype)
            }),
    {
        let lcol = match self.join_key_col(left_on, "left") {
            Ok(c) => c,
            Err(e) => {
                return Err(e);
            },
        };
        let rcol = match right.join_key_col(right_on, "right") {
            Ok(c) => c,
            Err(e) => {
                return Err(e);
            },
        };
        proof {
            lemma_find_col(self@.columns, left_on@);
            lemma_find_col(right@.columns, right_on@);
        }
        let ghost lk = lcol@.cells;
        let ghost rk = rcol@.cells;
        let (mut sids, mut pids) = build_scan_ids(lcol, rcol, true);
        let ghost base_s = sids@;
        let ghost base_p = pids@;
        // append the right rows that no left row matched
        let rn = rcol.data.len();
        let mut j: usize = 0;
        while j < rn
            invariant
                0 <= j <= rn,
                rn == rk.len(),
                lk == lcol@.cells,
                rk == rcol@.cells,
                join_key_ok(self@.columns, left_on@),
                join_key_ok(right@.columns, right_on@),
                sids@ == base_s + Seq::new(unmatched_upto(lk, rk, j as int).len(), |t: int| None),
                pids@ == base_p + some_ids(unmatched_upto(lk, rk, j as int)),
                sids@.len() == pids@.len(),
                forall|t: int|
                    0 <= t < sids@.len() ==> (#[trigger] sids@[t] matches Some(k) ==> k
                        < lk.len()),
                forall|t: int|
                    0 <= t < pids@.len() ==> (#[trigger] pids@[t] matches Some(k) ==> k
                        < rk.len()),
            decreases rn - j,
        {
            proof {
                assert(rcol.data.deep_view()[j as int] == rcol.data@[j as int].deep_view());
            }
            let ms = matches_of(lcol, &rcol.data[j]);
            if ms.len() == 0 {
                sids.push(None);
                pids.push(Some(j));
            }
            proof {
                assert(sids@ =~= base_s + Seq::new(
                    unmatched_upto(lk, rk, j as int + 1).len(),
                    |t: int| None,
                ));
                assert(pids@ =~= base_p + some_ids(unmatched_upto(lk, rk, j as int + 1)));
            }
            j = j + 1;
        }
        let out = DataFrame::assemble_join(self, right, right_on, &sids, &pids, "_right");
        proof {
            assert(sids.deep_view() =~= sids@);
            assert(pids.deep_view() =~= pids@);
            assert(sids@ =~= some_ids(keep_scan_upto(lk, rk, lk.len() as int)) + Seq::new(
                unmatched_upto(lk, rk, rk.len() as int).len(),
                |t: int| None,
            ));
        }
        out
    }
}

} // verus!
