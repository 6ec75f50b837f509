//! The sort engine. A permutation of the row indices is built, ordered by
//! a lexicographic multi-key comparator with per-key direction and a final
//! original-index tiebreak; ties after all keys therefore keep their
//! original relative order. The permutation is then applied by gather.

use vstd::prelude::*;
use core::cmp::Ordering;
use vstd::seq_lib::group_to_multiset_ensures;
use vstd::multiset::{Multiset, group_multiset_axioms};
use crate::dtype::DataType;
use crate::error::{AxionError, AxionResult};
use crate::scalar::{Scalar, ScalarV, sv_kind};
use crate::series::{Series, SeriesFlags, SeriesV, cell_ok, series_wf};
use crate::rowops::{cell_cmp, cell_cmp_exec};
use crate::ord::{reverse_ord, lemma_sv_cmp_antisym, lemma_sv_cmp_trans, lemma_sv_cmp_eq};
use crate::table::{DataFrame, DataFrameV, find_col, has_col, lemma_find_col};
use crate::transform::gather_model;

verus! {

/// All present cells of a column carry one kind; a well-formed column
/// satisfies this.
pub open spec fn kind_consistent(cells: Seq<Option<ScalarV>>) -> bool {
    forall|p: int, q: int|
        0 <= p < cells.len() && 0 <= q < cells.len() && #[trigger] cells[p] is Some
            && #[trigger] cells[q] is Some ==> sv_kind(cells[p]->0) == sv_kind(cells[q]->0)
}

/// The cell sequences of a list of columns.
pub open spec fn cols_cells(cols: Seq<Series>) -> Seq<Seq<Option<ScalarV>>> {
    Seq::new(cols.len(), |i: int| cols[i]@.cells)
}

/// Lexicographic three-way comparison of rows `a` and `b` across the key
/// columns in order, each key honouring its direction flag, falling
/// through to the next key on ties.
pub open spec fn rows_cmp(
    cols: Seq<Seq<Option<ScalarV>>>,
    desc: Seq<bool>,
    nulls_first: bool,
    a: int,
    b: int,
) -> Ordering
    decreases cols.len(),
{
    if cols.len() == 0 {
        Ordering::Equal
    } else {
        let c = cell_cmp(cols[0][a], cols[0][b], nulls_first);
        let cd = if desc[0] {
            reverse_ord(c)
        } else {
            c
        };
        if cd != Ordering::Equal {
            cd
        } else {
            rows_cmp(cols.drop_first(), desc.drop_first(), nulls_first, a, b)
        }
    }
}

/// Row `a` may stand before row `b`: the keys order it earlier, or all
/// keys tie and `a` did not come after `b` originally.
pub open spec fn rows_le(
    cols: Seq<Seq<Option<ScalarV>>>,
    desc: Seq<bool>,
    nulls_first: bool,
    a: int,
    b: int,
) -> bool {
    rows_cmp(cols, desc, nulls_first, a, b) == Ordering::Less || (rows_cmp(
        cols,
        desc,
        nulls_first,
        a,
        b,
    ) == Ordering::Equal && a <= b)
}

/// Both rows lie inside every key column.
pub open spec fn rows_in_bounds(cols: Seq<Seq<Option<ScalarV>>>, a: int, b: int) -> bool {
    forall|i: int|
        0 <= i < cols.len() ==> 0 <= a < (#[trigger] cols[i]).len() && 0 <= b < cols[i].len()
}

/// Every key column is kind-consistent.
pub open spec fn cols_consistent(cols: Seq<Seq<Option<ScalarV>>>) -> bool {
    forall|i: int| 0 <= i < cols.len() ==> kind_consistent(#[trigger] cols[i])
}

/// Swapping the rows mirrors the cell comparison's outcome.
pub proof fn lemma_cell_cmp_antisym(a: Option<ScalarV>, b: Option<ScalarV>, nulls_first: bool)
    requires
        a is Some && b is Some ==> sv_kind(a->0) == sv_kind(b->0),
    ensures
        cell_cmp(b, a, nulls_first) == reverse_ord(cell_cmp(a, b, nulls_first)),
{
    if a is Some && b is Some {
        lemma_sv_cmp_antisym(a->0, b->0);
    }
}

/// The cell comparison is transitive in its non-strict form.
pub proof fn lemma_cell_cmp_trans(
    a: Option<ScalarV>,
    b: Option<ScalarV>,
    c: Option<ScalarV>,
    nulls_first: bool,
)
    requires
        a is Some && b is Some ==> sv_kind(a->0) == sv_kind(b->0),
        b is Some && c is Some ==> sv_kind(b->0) == sv_kind(c->0),
        a is Some && c is Some ==> sv_kind(a->0) == sv_kind(c->0),
        cell_cmp(a, b, nulls_first) != Ordering::Greater,
        cell_cmp(b, c, nulls_first) != Ordering::Greater,
    ensures
        cell_cmp(a, c, nulls_first) != Ordering::Greater,
{
    if a is Some && b is Some && c is Some {
        lemma_sv_cmp_trans(a->0, b->0, c->0);
    }
}

/// Swapping the rows mirrors the row comparison's outcome.
pub proof fn lemma_rows_cmp_antisym(
    cols: Seq<Seq<Option<ScalarV>>>,
    desc: Seq<bool>,
    nulls_first: bool,
    a: int,
    b: int,
)
    requires
        cols_consistent(cols),
        rows_in_bounds(cols, a, b),
    ensures
        rows_cmp(cols, desc, nulls_first, b, a) == reverse_ord(
            rows_cmp(cols, desc, nulls_first, a, b),
        ),
    decreases cols.len(),
{
    if cols.len() > 0 {
        lemma_cell_cmp_antisym(cols[0][a], cols[0][b], nulls_first);
        assert(cols_consistent(cols.drop_first()));
        assert(rows_in_bounds(cols.drop_first(), a, b));
        lemma_rows_cmp_antisym(cols.drop_first(), desc.drop_first(), nulls_first, a, b);
    }
}

/// Two cells that compare `Equal`, within one kind, are the same cell.
pub proof fn lemma_cell_cmp_eq(a: Option<ScalarV>, b: Option<ScalarV>, nulls_first: bool)
    requires
        a is Some && b is Some ==> sv_kind(a->0) == sv_kind(b->0),
        cell_cmp(a, b, nulls_first) == Ordering::Equal,
    ensures
        a == b,
{
    if a is Some && b is Some {
        lemma_sv_cmp_eq(a->0, b->0);
    }
}

/// The cell comparison is transitive in its strict form.
pub proof fn lemma_cell_cmp_strict_trans(
    a: Option<ScalarV>,
    b: Option<ScalarV>,
    c: Option<ScalarV>,
    nulls_first: bool,
)
    requires
        a is Some && b is Some ==> sv_kind(a->0) == sv_kind(b->0),
        b is Some && c is Some ==> sv_kind(b->0) == sv_kind(c->0),
        a is Some && c is Some ==> sv_kind(a->0) == sv_kind(c->0),
        cell_cmp(a, b, nulls_first) == Ordering::Less,
        cell_cmp(b, c, nulls_first) == Ordering::Less,
    ensures
        cell_cmp(a, c, nulls_first) == Ordering::Less,
{
    lemma_cell_cmp_trans(a, b, c, nulls_first);
    if cell_cmp(a, c, nulls_first) == Ordering::Equal {
        lemma_cell_cmp_eq(a, c, nulls_first);
        lemma_cell_cmp_antisym(b, c, nulls_first);
        assert(cell_cmp(a, b, nulls_first) == Ordering::Greater);
    }
}

/// The row comparison is transitive in its non-strict form, and ties
/// compose to a tie.
pub proof fn lemma_rows_cmp_trans(
    cols: Seq<Seq<Option<ScalarV>>>,
    desc: Seq<bool>,
    nulls_first: bool,
    a: int,
    b: int,
    c: int,
)
    requires
        cols_consistent(cols),
        rows_in_bounds(cols, a, b),
        rows_in_bounds(cols, b, c),
        rows_in_bounds(cols, a, c),
        rows_cmp(cols, desc, nulls_first, a, b) != Ordering::Greater,
        rows_cmp(cols, desc, nulls_first, b, c) != Ordering::Greater,
    ensures
        rows_cmp(cols, desc, nulls_first, a, c) != Ordering::Greater,
        rows_cmp(cols, desc, nulls_first, a, b) == Ordering::Equal && rows_cmp(
            cols,
            desc,
            nulls_first,
            b,
            c,
        ) == Ordering::Equal ==> rows_cmp(cols, desc, nulls_first, a, c) == Ordering::Equal,
    decreases cols.len(),
{
    if cols.len() > 0 {
        let ha = cols[0][a];
        let hb = cols[0][b];
        let hc = cols[0][c];
        let dsc = desc[0];
        // the directed head comparisons; each is `Less` or `Equal`, else
        // the whole row comparison would already be `Greater`
        let dab = if dsc {
            reverse_ord(cell_cmp(ha, hb, nulls_first))
        } else {
            cell_cmp(ha, hb, nulls_first)
        };
        let dbc = if dsc {
            reverse_ord(cell_cmp(hb, hc, nulls_first))
        } else {
            cell_cmp(hb, hc, nulls_first)
        };
        assert(cols_consistent(cols.drop_first()));
        assert(rows_in_bounds(cols.drop_first(), a, b));
        assert(rows_in_bounds(cols.drop_first(), b, c));
        assert(rows_in_bounds(cols.drop_first(), a, c));
        if dab == Ordering::Equal && dbc == Ordering::Equal {
            lemma_cell_cmp_eq(ha, hb, nulls_first);
            lemma_cell_cmp_eq(hb, hc, nulls_first);
            lemma_rows_cmp_trans(cols.drop_first(), desc.drop_first(), nulls_first, a, b, c);
        } else if dab == Ordering::Equal {
            // the head ties `a` with `b`, so it orders `a` against `c` as
            // it orders `b` against `c`
            lemma_cell_cmp_eq(ha, hb, nulls_first);
        } else if dbc == Ordering::Equal {
            lemma_cell_cmp_eq(hb, hc, nulls_first);
        } else {
            // both directed head comparisons are strict
            if dsc {
                lemma_cell_cmp_antisym(ha, hb, nulls_first);
                lemma_cell_cmp_antisym(hb, hc, nulls_first);
                lemma_cell_cmp_strict_trans(hc, hb, ha, nulls_first);
                lemma_cell_cmp_antisym(ha, hc, nulls_first);
            } else {
                lemma_cell_cmp_strict_trans(ha, hb, hc, nulls_first);
            }
        }
    }
}

/// Row `a` or row `b` may stand first: the tie-broken order is total.
pub proof fn lemma_rows_le_total(
    cols: Seq<Seq<Option<ScalarV>>>,
    desc: Seq<bool>,
    nulls_first: bool,
    a: int,
    b: int,
)
    requires
        cols_consistent(cols),
        rows_in_bounds(cols, a, b),
    ensures
        rows_le(cols, desc, nulls_first, a, b) || rows_le(cols, desc, nulls_first, b, a),
{
    lemma_rows_cmp_antisym(cols, desc, nulls_first, a, b);
}

/// The tie-broken order is transitive.
pub proof fn lemma_rows_le_trans(
    cols: Seq<Seq<Option<ScalarV>>>,
    desc: Seq<bool>,
    nulls_first: bool,
    a: int,
    b: int,
    c: int,
)
    requires
        cols_consistent(cols),
        rows_in_bounds(cols, a, b),
        rows_in_bounds(cols, b, c),
        rows_in_bounds(cols, a, c),
        rows_le(cols, desc, nulls_first, a, b),
        rows_le(cols, desc, nulls_first, b, c),
    ensures
        rows_le(cols, desc, nulls_first, a, c),
{
    lemma_rows_cmp_antisym(cols, desc, nulls_first, a, b);
    lemma_rows_cmp_antisym(cols, desc, nulls_first, b, c);
    lemma_rows_cmp_antisym(cols, desc, nulls_first, a, c);
    lemma_rows_cmp_trans(cols, desc, nulls_first, a, b, c);
    let ab = rows_cmp(cols, desc, nulls_first, a, b);
    let bc = rows_cmp(cols, desc, nulls_first, b, c);
    let ac = rows_cmp(cols, desc, nulls_first, a, c);
    if !(ab == Ordering::Equal && bc == Ordering::Equal) && ac == Ordering::Equal {
        // at least one step is strict, so the whole cannot be a tie
        if ab == Ordering::Less {
            lemma_rows_cmp_trans(cols, desc, nulls_first, b, c, a);
        } else {
            lemma_rows_cmp_trans(cols, desc, nulls_first, c, a, b);
        }
    }
}

/// The executable row comparator: whether row `a` may stand before row
/// `b` under the tie-broken order.
fn rows_le_exec(cols: &Vec<Series>, desc: &Vec<bool>, nulls_first: bool, a: usize, b: usize) -> (r:
    bool)
    requires
        cols@.len() == desc@.len(),
        rows_in_bounds(cols_cells(cols@), a as int, b as int),
    ensures
        r == rows_le(cols_cells(cols@), desc@, nulls_first, a as int, b as int),
{
    let ghost full_cols = cols_cells(cols@);
    let ghost full_desc = desc@;
    proof {
        assert(full_cols.skip(0) =~= full_cols);
        assert(full_desc.skip(0) =~= full_desc);
    }
    let n = cols.len();
    let mut i: usize = 0;
    while i < n
        invariant
            0 <= i <= n,
            n == cols@.len(),
            n == desc@.len(),
            full_cols == cols_cells(cols@),
            full_desc == desc@,
            rows_in_bounds(full_cols, a as int, b as int),
            rows_cmp(full_cols, full_desc, nulls_first, a as int, b as int) == rows_cmp(
                full_cols.skip(i as int),
                full_desc.skip(i as int),
                nulls_first,
                a as int,
                b as int,
            ),
        decreases n - i,
    {
        let col = &cols[i];
        proof {
            assert(full_cols.skip(i as int)[0] == full_cols[i as int]);
            assert(full_cols[i as int] == col@.cells);
            assert(col.data.deep_view()[a as int] == col.data@[a as int].deep_view());
            assert(col.data.deep_view()[b as int] == col.data@[b as int].deep_view());
        }
        let c = cell_cmp_exec(&col.data[a], &col.data[b], nulls_first);
        let cd = if desc[i] {
            match c {
                Ordering::Less => Ordering::Greater,
                Ordering::Equal => Ordering::Equal,
                Ordering::Greater => Ordering::Less,
            }
        } else {
            c
        };
        proof {
            assert(full_cols.skip(i as int).drop_first() =~= full_cols.skip(i as int + 1));
            assert(full_desc.skip(i as int).drop_first() =~= full_desc.skip(i as int + 1));
        }
        match cd {
            Ordering::Less => {
                return true;
            },
            Ordering::Greater => {
                return false;
            },
            Ordering::Equal => {},
        }
        i = i + 1;
    }
    proof {
        assert(full_cols.skip(n as int) =~= Seq::<Seq<Option<ScalarV>>>::empty());
    }
    a <= b
}

/// The identity index sequence `0, 1, ..., n-1`.
pub open spec fn identity_indices(n: int) -> Seq<usize> {
    Seq::new(n as nat, |i: int| i as usize)
}

/// `perm` reorders the rows `0..n` so that the keys are nondecreasing
/// under the tie-broken order: it is onto `0..n`, and earlier output rows
/// never order after later ones.
pub open spec fn is_sort_perm(
    cols: Seq<Seq<Option<ScalarV>>>,
    desc: Seq<bool>,
    nulls_first: bool,
    perm: Seq<usize>,
    n: int,
) -> bool {
    &&& perm.len() == n
    &&& (forall|j: int| 0 <= j < n ==> #[trigger] perm[j] < n)
    &&& perm.to_multiset() == identity_indices(n).to_multiset()
    &&& (forall|p: int, q: int|
        0 <= p < q < n ==> rows_le(
            cols,
            desc,
            nulls_first,
            #[trigger] perm[p] as int,
            #[trigger] perm[q] as int,
        ))
}

/// Builds the permutation of `0..n` that orders the rows by the keys, the
/// original position breaking ties.
pub fn sort_indices(cols: &Vec<Series>, desc: &Vec<bool>, nulls_first: bool, n: usize) -> (r: Vec<
    usize,
>)
    requires
        cols@.len() == desc@.len(),
        forall|i: int| 0 <= i < cols@.len() ==> (#[trigger] cols@[i]).wf(),
        forall|i: int| 0 <= i < cols@.len() ==> (#[trigger] cols@[i])@.cells.len() == n,
    ensures
        is_sort_perm(cols_cells(cols@), desc@, nulls_first, r@, n as int),
{
    broadcast use group_to_multiset_ensures;
    broadcast use group_multiset_axioms;

    let ghost model = cols_cells(cols@);
    proof {
        assert forall|i: int| 0 <= i < model.len() implies kind_consistent(#[trigger] model[i]) by {
            assert(model[i] == cols@[i]@.cells);
            assert(cols@[i].wf());
        }
    }
    let mut src: Vec<usize> = Vec::new();
    let mut i: usize = 0;
    while i < n
        invariant
            0 <= i <= n,
            src@.len() == i,
            forall|j: int| 0 <= j < i ==> #[trigger] src@[j] == j as usize,
        decreases n - i,
    {
        src.push(i);
        i = i + 1;
    }
    proof {
        assert(src@ =~= identity_indices(n as int));
    }
    proof {
        assert forall|i: int| 0 <= i < model.len() implies (#[trigger] model[i]).len() == n by {
            assert(model[i] == cols@[i]@.cells);
        }
    }
    let mut out: Vec<usize> = Vec::new();
    while src.len() > 0
        invariant
            cols@.len() == desc@.len(),
            model == cols_cells(cols@),
            cols_consistent(model),
            forall|i: int| 0 <= i < model.len() ==> (#[trigger] model[i]).len() == n,
            forall|i: int| 0 <= i < cols@.len() ==> (#[trigger] cols@[i]).wf(),
            forall|i: int| 0 <= i < cols@.len() ==> (#[trigger] cols@[i])@.cells.len() == n,
            forall|j: int| 0 <= j < src@.len() ==> #[trigger] src@[j] < n,
            forall|j: int| 0 <= j < out@.len() ==> #[trigger] out@[j] < n,
            out@.to_multiset().add(src@.to_multiset()) == identity_indices(n as int).to_multiset(),
            forall|p: int, q: int|
                0 <= p < q < out@.len() ==> rows_le(
                    model,
                    desc@,
                    nulls_first,
                    #[trigger] out@[p] as int,
                    #[trigger] out@[q] as int,
                ),
            forall|p: int, q: int|
                0 <= p < out@.len() && 0 <= q < src@.len() ==> rows_le(
                    model,
                    desc@,
                    nulls_first,
                    #[trigger] out@[p] as int,
                    #[trigger] src@[q] as int,
                ),
        decreases src@.len(),
    {
        // find the index of the least remaining row
        proof {
            assert(rows_in_bounds(model, src@[0] as int, src@[0] as int));
            lemma_rows_le_total(model, desc@, nulls_first, src@[0] as int, src@[0] as int);
        }
        let mut best: usize = 0;
        let mut j: usize = 1;
        while j < src.len()
            invariant
                cols@.len() == desc@.len(),
                model == cols_cells(cols@),
                cols_consistent(model),
                forall|i: int| 0 <= i < model.len() ==> (#[trigger] model[i]).len() == n,
                src@.len() > 0,
                forall|k: int| 0 <= k < src@.len() ==> #[trigger] src@[k] < n,
                0 <= best < src@.len(),
                best < j <= src@.len(),
                forall|k: int|
                    0 <= k < j ==> rows_le(
                        model,
                        desc@,
                        nulls_first,
                        src@[best as int] as int,
                        #[trigger] src@[k] as int,
                    ),
            decreases src@.len() - j,
        {
            proof {
                assert(rows_in_bounds(model, src@[best as int] as int, src@[j as int] as int));
            }
            if !rows_le_exec(cols, desc, nulls_first, src[best], src[j]) {
                proof {
                    lemma_rows_le_total(
                        model,
                        desc@,
                        nulls_first,
                        src@[best as int] as int,
                        src@[j as int] as int,
                    );
                    let ghost old_best = src@[best as int] as int;
                    assert forall|k: int| 0 <= k < j + 1 implies rows_le(
                        model,
                        desc@,
                        nulls_first,
                        src@[j as int] as int,
                        #[trigger] src@[k] as int,
                    ) by {
                        if k < j {
                            lemma_rows_le_trans(
                                model,
                                desc@,
                                nulls_first,
                                src@[j as int] as int,
                                old_best,
                                src@[k] as int,
                            );
                        } else {
                            lemma_rows_le_total(
                                model,
                                desc@,
                                nulls_first,
                                src@[j as int] as int,
                                src@[j as int] as int,
                            );
                        }
                    }
                }
                best = j;
            }
            j = j + 1;
        }
        let ghost src_before = src@;
        let ghost out_before = out@;
        let chosen = src.remove(best);
        out.push(chosen);
        proof {
            broadcast use group_to_multiset_ensures;
            broadcast use group_multiset_axioms;

            assert(chosen == src_before[best as int]);
            assert(src@ == src_before.remove(best as int));
            assert(out@ == out_before.push(chosen));
            // the pool and the sorted prefix still hold `0..n` together
            assert(src_before.contains(chosen));
            assert(src_before.to_multiset().count(chosen) > 0);
            assert(out@.to_multiset() =~= out_before.to_multiset().insert(chosen));
            assert(src@.to_multiset() =~= src_before.to_multiset().remove(chosen));
            assert(out@.to_multiset().add(src@.to_multiset()) =~= out_before.to_multiset().add(
                src_before.to_multiset(),
            ));
            // every remaining row sat in the old pool
            assert forall|q: int| 0 <= q < src@.len() implies #[trigger] src@[q] < n by {
                if q < best {
                    assert(src@[q] == src_before[q]);
                } else {
                    assert(src@[q] == src_before[q + 1]);
                }
            }
            // the chosen row goes after the sorted prefix and before the
            // remaining pool
            assert forall|p: int, q: int|
                0 <= p < out@.len() && 0 <= q < src@.len() implies rows_le(
                model,
                desc@,
                nulls_first,
                #[trigger] out@[p] as int,
                #[trigger] src@[q] as int,
            ) by {
                let s = if q < best {
                    src_before[q]
                } else {
                    src_before[q + 1]
                };
                assert(src@[q] == s);
                if p < out_before.len() {
                    assert(out@[p] == out_before[p]);
                    assert(rows_le(model, desc@, nulls_first, out_before[p] as int, s as int));
                } else {
                    assert(out@[p] == chosen);
                    assert(rows_le(model, desc@, nulls_first, chosen as int, s as int));
                }
            }
            assert forall|p: int, q: int|
                0 <= p < q < out@.len() implies rows_le(
                model,
                desc@,
                nulls_first,
                #[trigger] out@[p] as int,
                #[trigger] out@[q] as int,
            ) by {
                if q < out_before.len() {
                    assert(out@[p] == out_before[p] && out@[q] == out_before[q]);
                } else {
                    assert(out@[p] == out_before[p] && out@[q] == chosen);
                    assert(rows_le(model, desc@, nulls_first, out_before[p] as int, chosen as int));
                }
            }
        }
    }
    proof {
        broadcast use group_to_multiset_ensures;

        assert(src@.to_multiset() =~= Multiset::<usize>::empty());
        assert(out@.to_multiset().add(Multiset::<usize>::empty()) =~= out@.to_multiset());
        assert(out@.to_multiset() =~= identity_indices(n as int).to_multiset());
        assert(out@.len() == out@.to_multiset().len());
        assert(identity_indices(n as int).len() == identity_indices(n as int).to_multiset().len());
        assert(out@.len() == n);
    }
    out
}

/// Gathering by two index sequences that hold the same positions (with
/// multiplicity) yields the same cells, with multiplicity.
pub proof fn lemma_gather_multiset(cells: Seq<Option<ScalarV>>, idx: Seq<usize>, idy: Seq<usize>)
    requires
        idx.to_multiset() == idy.to_multiset(),
        forall|j: int| 0 <= j < idx.len() ==> #[trigger] idx[j] < cells.len(),
        forall|j: int| 0 <= j < idy.len() ==> #[trigger] idy[j] < cells.len(),
    ensures
        gather_model(cells, idx).to_multiset() == gather_model(cells, idy).to_multiset(),
    decreases idx.len(),
{
    broadcast use group_to_multiset_ensures;
    broadcast use group_multiset_axioms;

    assert(idx.len() == idx.to_multiset().len());
    assert(idy.len() == idy.to_multiset().len());
    if idx.len() == 0 {
        assert(gather_model(cells, idx) =~= Seq::<Option<ScalarV>>::empty());
        assert(gather_model(cells, idy) =~= Seq::<Option<ScalarV>>::empty());
    } else {
        let x = idx.last();
        let idx2 = idx.drop_last();
        assert(idx =~= idx2.push(x));
        assert(idx.to_multiset() == idx2.to_multiset().insert(x));
        assert(idy.to_multiset().count(x) > 0);
        assert(idy.contains(x));
        let p = choose|p: int| 0 <= p < idy.len() && idy[p] == x;
        let idy2 = idy.remove(p);
        assert(idy2.to_multiset() == idy.to_multiset().remove(x));
        assert(idx2.to_multiset() =~= idy2.to_multiset());
        assert forall|j: int| 0 <= j < idx2.len() implies #[trigger] idx2[j] < cells.len() by {
            assert(idx2[j] == idx[j]);
        }
        assert forall|j: int| 0 <= j < idy2.len() implies #[trigger] idy2[j] < cells.len() by {
            if j < p {
                assert(idy2[j] == idy[j]);
            } else {
                assert(idy2[j] == idy[j + 1]);
            }
        }
        lemma_gather_multiset(cells, idx2, idy2);
        assert(gather_model(cells, idx) =~= gather_model(cells, idx2).push(cells[x as int]));
        assert(gather_model(cells, idx).to_multiset() == gather_model(
            cells,
            idx2,
        ).to_multiset().insert(cells[x as int]));
        assert(gather_model(cells, idy2) =~= gather_model(cells, idy).remove(p));
        assert(gather_model(cells, idy)[p] == cells[x as int]);
        assert(gather_model(cells, idy).remove(p).to_multiset() == gather_model(
            cells,
            idy,
        ).to_multiset().remove(cells[x as int]));
        assert(gather_model(cells, idy).contains(cells[x as int]));
        assert(gather_model(cells, idy).to_multiset().count(cells[x as int]) > 0);
        assert(gather_model(cells, idx).to_multiset() =~= gather_model(cells, idy).to_multiset());
    }
}

/// A column's cells, in nondecreasing order under the sort's null-first
/// comparison; `reverse` flips the direction.
pub open spec fn cells_sorted(cells: Seq<Option<ScalarV>>, reverse: bool) -> bool {
    forall|p: int, q: int|
        0 <= p < q < cells.len() ==> (if reverse {
            cell_cmp(#[trigger] cells[q], #[trigger] cells[p], true)
        } else {
            cell_cmp(cells[p], cells[q], true)
        }) != Ordering::Greater
}

impl Series {
    /// Sorts the column in place: ascending with missing cells first, or
    /// descending with missing cells last when `reverse`. The matching
    /// sortedness mark is set.
    pub fn sort(&mut self, reverse: bool)
        requires
            old(self).wf(),
        ensures
            final(self)@.name == old(self)@.name,
            final(self)@.dtype == old(self)@.dtype,
            final(self).wf(),
            final(self)@.cells.to_multiset() == old(self)@.cells.to_multiset(),
            cells_sorted(final(self)@.cells, reverse),
            final(self)@.sorted_asc == !reverse,
            final(self)@.sorted_desc == reverse,
    {
        broadcast use group_to_multiset_ensures;

        let n = self.data.len();
        let mut cols: Vec<Series> = Vec::new();
        cols.push(self.clone());
        let mut desc: Vec<bool> = Vec::new();
        desc.push(reverse);
        let ghost model = cols_cells(cols@);
        proof {
            assert(model[0] == old(self)@.cells);
        }
        let perm = sort_indices(&cols, &desc, true, n);
        let gathered = match self.take_indices(&perm) {
            Ok(g) => g,
            Err(_) => {
                proof {
                    assert(false);
                }
                // never reached: every permutation entry is in bounds
                return ;
            },
        };
        self.data = gathered.data;
        self.flags = SeriesFlags {
            is_sorted_ascending: !reverse,
            is_sorted_descending: reverse,
        };
        proof {
            let cells = old(self)@.cells;
            assert(self@.cells == gather_model(cells, perm@));
            assert(gather_model(cells, identity_indices(n as int)) =~= cells);
            assert forall|j: int|
                0 <= j < identity_indices(n as int).len() implies #[trigger] identity_indices(
                n as int,
            )[j] < cells.len() by {}
            lemma_gather_multiset(cells, perm@, identity_indices(n as int));
            assert(self@.cells.to_multiset() == cells.to_multiset());
            assert forall|p: int, q: int|
                0 <= p < q < self@.cells.len() implies (if reverse {
                cell_cmp(#[trigger] self@.cells[q], #[trigger] self@.cells[p], true)
            } else {
                cell_cmp(self@.cells[p], self@.cells[q], true)
            }) != Ordering::Greater by {
                assert(rows_le(model, desc@, true, perm@[p] as int, perm@[q] as int));
                let a = perm@[p] as int;
                let b = perm@[q] as int;
                let c = cell_cmp(cells[a], cells[b], true);
                assert(rows_cmp(model, desc@, true, a, b) == (if reverse {
                    reverse_ord(c)
                } else {
                    c
                })) by {
                    assert(model.drop_first().len() == 0);
                    assert(rows_cmp(model.drop_first(), desc@.drop_first(), true, a, b)
                        == Ordering::Equal);
                }
                assert(self@.cells[p] == cells[a] && self@.cells[q] == cells[b]);
                if reverse {
                    assert(old(self).wf());
                    assert(cell_ok(cells[a], old(self)@.dtype) && cell_ok(
                        cells[b],
                        old(self)@.dtype,
                    ));
                    lemma_cell_cmp_antisym(cells[a], cells[b], true);
                }
            }
            assert forall|k: int| 0 <= k < self@.cells.len() implies cell_ok(
                #[trigger] self@.cells[k],
                self@.dtype,
            ) by {
                assert(gathered.wf());
                assert(gathered@.cells[k] == self@.cells[k]);
                assert(cell_ok(gathered@.cells[k], gathered@.dtype));
            }
        }
    }
}

/// The cell sequences of the named key columns, in key order.
pub open spec fn key_views(cols: Seq<SeriesV>, names: Seq<Seq<char>>) -> Seq<
    Seq<Option<ScalarV>>,
> {
    Seq::new(
        names.len(),
        |k: int|
            match find_col(cols, names[k]) {
                Some(i) => cols[i].cells,
                None => Seq::empty(),
            },
    )
}

impl DataFrame {
    /// Sorts the rows by the named key columns, each with its own
    /// direction flag, ties falling through to the next key; rows that
    /// tie on every key keep their original relative order. A missing
    /// cell sorts after every value. Sorting by no keys is the identity;
    /// a list-kinded key is rejected.
    pub fn sort(&self, by: &Vec<String>, descending: &Vec<bool>) -> (r: AxionResult<DataFrame>)
        requires
            self.wf(),
        ensures
            by.deep_view().len() == 0 ==> (r matches Ok(df) && df@ == self@),
            r is Ok <==> by.deep_view().len() == 0 || (by.deep_view().len()
                == descending@.len() && (forall|k: int|
                0 <= k < by.deep_view().len() ==> has_col(
                    self@.columns,
                    #[trigger] by.deep_view()[k],
                )) && (forall|k: int|
                0 <= k < by.deep_view().len() ==> (find_col(
                    self@.columns,
                    #[trigger] by.deep_view()[k],
                ) matches Some(i) ==> !(self@.columns[i].dtype is List)))),
            r matches Ok(df) ==> by.deep_view().len() == 0 || (exists|perm: Seq<usize>|
                {
                    &&& is_sort_perm(
                        key_views(self@.columns, by.deep_view()),
                        descending@,
                        false,
                        perm,
                        self@.height,
                    )
                    &&& df@.height == self@.height
                    &&& df@.columns.len() == self@.columns.len()
                    &&& (forall|i: int|
                        0 <= i < self@.columns.len() ==> (#[trigger] df@.columns[i]).cells
                            == gather_model((#[trigger] self@.columns[i]).cells, perm)
                            && df@.columns[i].name == self@.columns[i].name && df@.columns[i].dtype
                            == self@.columns[i].dtype)
                }),
            r matches Ok(df) ==> df.wf(),
            r matches Err(e) ==> (e is InvalidArgument && by.deep_view().len() > 0
                && by.deep_view().len() != descending@.len()) || (e matches
            AxionError::ColumnNotFound(nm) && by.deep_view().len() == descending@.len()
                && by.deep_view().contains(nm@) && !has_col(self@.columns, nm@)) || (e
                is UnsupportedOperation && by.deep_view().len() == descending@.len() && (exists|
                k: int,
            |
                0 <= k < by.deep_view().len() && (#[trigger] find_col(
                    self@.columns,
                    by.deep_view()[k],
                ) matches Some(i) && self@.columns[i].dtype is List))),
    {
        let nkeys = by.len();
        if nkeys == 0 {
            return Ok(self.clone());
        }
        if nkeys != descending.len() {
            return Err(
                AxionError::InvalidArgument(
                    String::from_str("the sort keys and the direction flags must match in number"),
                ),
            );
        }
        let mut keys: Vec<Series> = Vec::new();
        let mut k: usize = 0;
        while k < nkeys
            invariant
                0 <= k <= nkeys,
                nkeys == by.deep_view().len(),
                nkeys == descending@.len(),
                self.wf(),
                keys@.len() == k,
                forall|j: int|
                    0 <= j < k ==> has_col(self@.columns, #[trigger] by.deep_view()[j]),
                forall|j: int|
                    0 <= j < k ==> (find_col(self@.columns, #[trigger] by.deep_view()[j]) matches
                        Some(i) && keys@[j]@ == self@.columns[i] && !(self@.columns[i].dtype
                        is List)),
            decreases nkeys - k,
        {
            proof {
                assert(by.deep_view()[k as int] == by@[k as int]@);
            }
            let col = match self.column(by[k].as_str()) {
                Ok(c) => c,
                Err(e) => {
                    proof {
                        assert(by.deep_view().contains(by.deep_view()[k as int]));
                    }
                    return Err(e);
                },
            };
            let kd = col.dtype();
            if matches!(&kd, DataType::List(_)) {
                let mut msg = String::from_str("a list-kinded column cannot serve as a sort key: ");
                msg.append(by[k].as_str());
                proof {
                    let i = choose|i: int| find_col(self@.columns, by.deep_view()[k as int]) == Some(i);
                    assert(find_col(self@.columns, by.deep_view()[k as int]) matches Some(ii)
                        && self@.columns[ii].dtype is List);
                }
                return Err(AxionError::UnsupportedOperation(msg));
            }
            keys.push(col.clone());
            k = k + 1;
        }
        let ghost keymodel = key_views(self@.columns, by.deep_view());
        proof {
            assert(keymodel =~= cols_cells(keys@));
            assert forall|j: int| 0 <= j < keys@.len() implies (#[trigger] keys@[j]).wf() && keys@[
                j
            ]@.cells.len() == self@.height by {
                let i = choose|i: int| find_col(self@.columns, by.deep_view()[j]) == Some(i);
                lemma_find_col(self@.columns, by.deep_view()[j]);
                assert(keys@[j]@ == self@.columns[i]);
            }
        }
        let perm = sort_indices(&keys, descending, false, self.height);
        let n = self.columns.len();
        let mut out: Vec<Series> = Vec::new();
        let mut i: usize = 0;
        while i < n
            invariant
                0 <= i <= n,
                n == self@.columns.len(),
                self.wf(),
                perm@.len() == self@.height,
                forall|j: int| 0 <= j < perm@.len() ==> #[trigger] perm@[j] < self@.height,
                out@.len() == i,
                forall|j: int|
                    0 <= j < i ==> (#[trigger] out@[j])@.cells == gather_model(
                        self@.columns[j].cells,
                        perm@,
                    ) && out@[j]@.name == self@.columns[j].name && out@[j]@.dtype
                        == self@.columns[j].dtype && series_wf(out@[j]@),
            decreases n - i,
        {
            proof {
                assert(self@.columns[i as int] == self.columns@[i as int]@);
            }
            let g = match self.columns[i].take_indices(&perm) {
                Ok(g) => g,
                Err(_) => {
                    proof {
                        assert(false);
                    }
                    return Err(AxionError::InternalError(String::from_str("sort gather")));
                },
            };
            out.push(g);
            i = i + 1;
        }
        let df = DataFrame { height: self.height, columns: out };
        proof {
            let perm_g = perm@;
            assert(is_sort_perm(keymodel, descending@, false, perm_g, self@.height));
            assert forall|j: int| 0 <= j < n implies (#[trigger] df@.columns[j]).cells
                == gather_model(self@.columns[j].cells, perm_g) && df@.columns[j].name
                == self@.columns[j].name && df@.columns[j].dtype == self@.columns[j].dtype by {
                assert(df@.columns[j] == out@[j]@);
            }
            assert forall|p: int, q: int|
                0 <= p < q < df@.columns.len() implies (#[trigger] df@.columns[p]).name != (
            #[trigger] df@.columns[q]).name by {
                assert(df@.columns[p] == out@[p]@ && df@.columns[q] == out@[q]@);
                assert(self@.columns[p].name != self@.columns[q].name);
            }
            assert forall|j: int| 0 <= j < n implies (#[trigger] df@.columns[j]).cells.len()
                == df@.height && series_wf(df@.columns[j]) by {
                assert(df@.columns[j] == out@[j]@);
            }
        }
        Ok(df)
    }
}

} // verus!
