//! The stated laws of the engine, each proved from the public contracts:
//! the table invariants, null propagation, the join row-count bounds,
//! sort stability, and group coverage. The parallel/sequential
//! equivalence law lives beside the transform layer it speaks of.

use vstd::prelude::*;
use core::cmp::Ordering;
use vstd::seq_lib::group_to_multiset_ensures;
use vstd::multiset::group_multiset_axioms;
use crate::scalar::ScalarV;
use crate::series::series_wf;
use crate::table::DataFrame;
use crate::arith::{ArithOp, CmpOp, arith_series_model, cmp_series_model};
use crate::join::{
    matches_upto, match_indices, inner_scan_upto, inner_probe_upto, keep_scan_upto, unmatched_upto,
};
use crate::sort::{rows_cmp, rows_le, is_sort_perm, identity_indices};
use crate::groupby::{groups_upto, row_key};

verus! {

/// Every column of a well-formed table is exactly as long as the table
/// is high; the validated constructor refuses anything else with a
/// length-mismatch error naming the offending column.
pub proof fn lemma_table_column_lengths(df: &DataFrame)
    requires
        df.wf(),
    ensures
        forall|i: int|
            0 <= i < df@.columns.len() ==> (#[trigger] df@.columns[i]).cells.len() == df@.height,
{
}

/// The column names of a well-formed table are pairwise distinct; the
/// validated constructor and the column-adding entry point refuse a
/// duplicate.
pub proof fn lemma_table_distinct_names(df: &DataFrame)
    requires
        df.wf(),
    ensures
        forall|i: int, j: int|
            0 <= i < j < df@.columns.len() ==> (#[trigger] df@.columns[i]).name != (
            #[trigger] df@.columns[j]).name,
{
}

/// Null propagation: whichever elementwise binary operator runs over two
/// columns, a missing operand at a position makes the result missing at
/// that position.
pub proof fn lemma_null_propagation(
    a: Seq<Option<ScalarV>>,
    b: Seq<Option<ScalarV>>,
    op: ArithOp,
    i: int,
)
    requires
        0 <= i < a.len(),
        a[i] is None || b[i] is None,
    ensures
        arith_series_model(a, b, op)[i] is None,
{
}

/// Null propagation for the elementwise comparisons.
pub proof fn lemma_null_propagation_compare(
    a: Seq<Option<ScalarV>>,
    b: Seq<Option<ScalarV>>,
    op: CmpOp,
    i: int,
)
    requires
        0 <= i < a.len(),
        a[i] is None || b[i] is None,
    ensures
        cmp_series_model(a, b, op)[i] is None,
{
}

/// A key matches at most as many rows as the probed side has.
pub proof fn lemma_matches_upto_len(
    keys: Seq<Option<ScalarV>>,
    key: Option<ScalarV>,
    n: int,
)
    ensures
        matches_upto(keys, key, n).len() <= (if n <= 0 {
            0
        } else {
            n
        }),
    decreases n,
{
    if n > 0 {
        lemma_matches_upto_len(keys, key, n - 1);
    }
}

/// The inner join emits one row per matching pair: never more than the
/// scan side's height times the probe side's height.
pub proof fn lemma_inner_join_count(sk: Seq<Option<ScalarV>>, pk: Seq<Option<ScalarV>>, n: int)
    requires
        0 <= n,
    ensures
        inner_scan_upto(sk, pk, n).len() <= n * pk.len(),
    decreases n,
{
    if n > 0 {
        lemma_inner_join_count(sk, pk, n - 1);
        lemma_matches_upto_len(pk, sk[n - 1], pk.len() as int);
        assert((n - 1) * pk.len() + pk.len() == n * pk.len()) by (nonlinear_arith);
    }
}

/// A join that keeps unmatched scan rows emits at least one row per scan
/// row: the left join's height is at least the left height, and the
/// right join's at least the right height.
pub proof fn lemma_keep_join_count(sk: Seq<Option<ScalarV>>, pk: Seq<Option<ScalarV>>, n: int)
    requires
        0 <= n,
    ensures
        keep_scan_upto(sk, pk, n).len() >= n,
    decreases n,
{
    if n > 0 {
        lemma_keep_join_count(sk, pk, n - 1);
    }
}

/// The outer join keeps every row of either side: its height — the kept
/// left pass plus the appended unmatched right rows — is at least both
/// the left and the right height.
pub proof fn lemma_outer_join_count(sk: Seq<Option<ScalarV>>, pk: Seq<Option<ScalarV>>)
    requires
        sk.len() <= usize::MAX,
        pk.len() <= usize::MAX,
    ensures
        keep_scan_upto(sk, pk, sk.len() as int).len() + unmatched_upto(sk, pk, pk.len() as int).len()
            >= sk.len(),
        keep_scan_upto(sk, pk, sk.len() as int).len() + unmatched_upto(sk, pk, pk.len() as int).len()
            >= pk.len(),
{
    lemma_keep_join_count(sk, pk, sk.len() as int);
    // every matched probe row stands in some scan row's match list, so
    // the kept pass has at least one output row for it; the unmatched
    // probe rows stand in the appended tail
    let n = pk.len() as int;
    let matched = matched_probe_set(sk, pk, n);
    lemma_matched_partition(sk, pk, n);
    let probe_rows = inner_probe_upto(sk, pk, sk.len() as int);
    let covered = probe_rows.to_set();
    assert forall|x: usize| matched.contains(x) implies covered.contains(x) by {
        let ms = match_indices(sk, pk[x as int]);
        assert(ms.len() > 0);
        let t = ms[0];
        assert(ms.contains(t));
        lemma_matches_member(sk, pk[x as int], sk.len() as int, t);
        lemma_matches_member(pk, sk[t as int], pk.len() as int, x);
        assert(match_indices(pk, sk[t as int]).contains(x));
        lemma_inner_probe_covers(sk, pk, t as int, x, sk.len() as int);
        assert(probe_rows.contains(x));
    }
    broadcast use vstd::seq_lib::seq_to_set_is_finite;

    assert(matched.subset_of(covered));
    vstd::set_lib::lemma_len_subset(matched, covered);
    probe_rows.lemma_cardinality_of_set();
    lemma_keep_ge_probe(sk, pk, sk.len() as int);
}

/// The probe rows some scan row matches, among the first `n`.
pub open spec fn matched_probe_set(
    sk: Seq<Option<ScalarV>>,
    pk: Seq<Option<ScalarV>>,
    n: int,
) -> vstd::set::Set<usize>
    decreases n,
{
    if n <= 0 {
        vstd::set::Set::empty()
    } else {
        let rest = matched_probe_set(sk, pk, n - 1);
        if match_indices(sk, pk[n - 1]).len() == 0 {
            rest
        } else {
            rest.insert((n - 1) as usize)
        }
    }
}

/// The matched and unmatched probe rows together cover the prefix.
proof fn lemma_matched_partition(sk: Seq<Option<ScalarV>>, pk: Seq<Option<ScalarV>>, n: int)
    requires
        0 <= n <= usize::MAX,
    ensures
        matched_probe_set(sk, pk, n).finite(),
        forall|x: usize|
            #[trigger] matched_probe_set(sk, pk, n).contains(x) ==> x < n && match_indices(
                sk,
                pk[x as int],
            ).len() > 0,
        matched_probe_set(sk, pk, n).len() + unmatched_upto(sk, pk, n).len() == n,
    decreases n,
{
    broadcast use vstd::set::group_set_axioms;

    if n > 0 {
        lemma_matched_partition(sk, pk, n - 1);
        let rest = matched_probe_set(sk, pk, n - 1);
        if match_indices(sk, pk[n - 1]).len() == 0 {
        } else {
            assert(!rest.contains((n - 1) as usize));
            assert(matched_probe_set(sk, pk, n).len() == rest.len() + 1);
        }
    }
}

/// A row stands in a match list exactly when it carries the key.
proof fn lemma_matches_member(keys: Seq<Option<ScalarV>>, key: Option<ScalarV>, n: int, t: usize)
    requires
        0 <= n <= keys.len(),
        n <= usize::MAX,
    ensures
        matches_upto(keys, key, n).contains(t) <==> (t < n && keys[t as int] == key),
    decreases n,
{
    if n > 0 {
        lemma_matches_member(keys, key, n - 1, t);
        let rest = matches_upto(keys, key, n - 1);
        let full = matches_upto(keys, key, n);
        if keys[n - 1] == key {
            assert(full == rest.push((n - 1) as usize));
            if t < n && keys[t as int] == key {
                if t == n - 1 {
                    assert(full[full.len() - 1] == t);
                    assert(full.contains(t));
                } else {
                    let idx = choose|idx: int| 0 <= idx < rest.len() && rest[idx] == t;
                    assert(full[idx] == t);
                    assert(full.contains(t));
                }
            }
            if full.contains(t) {
                let idx = choose|idx: int| 0 <= idx < full.len() && full[idx] == t;
                if idx < rest.len() {
                    assert(rest[idx] == t);
                    assert(rest.contains(t));
                } else {
                    assert(t == n - 1);
                }
            }
        } else {
            assert(full == rest);
        }
    }
}

/// Every row of a scan row's match list stands in the joined probe pass.
proof fn lemma_inner_probe_covers(
    sk: Seq<Option<ScalarV>>,
    pk: Seq<Option<ScalarV>>,
    i: int,
    j: usize,
    n: int,
)
    requires
        0 <= i < n,
        match_indices(pk, sk[i]).contains(j),
    ensures
        inner_probe_upto(sk, pk, n).contains(j),
    decreases n,
{
    let first = inner_probe_upto(sk, pk, n - 1);
    let ms = match_indices(pk, sk[n - 1]);
    assert(inner_probe_upto(sk, pk, n) == first + ms);
    if i == n - 1 {
        let idx = choose|idx: int| 0 <= idx < ms.len() && ms[idx] == j;
        assert((first + ms)[first.len() + idx] == j);
        assert(inner_probe_upto(sk, pk, n).contains(j));
    } else {
        lemma_inner_probe_covers(sk, pk, i, j, n - 1);
        let idx = choose|idx: int| 0 <= idx < first.len() && first[idx] == j;
        assert((first + ms)[idx] == j);
        assert(inner_probe_upto(sk, pk, n).contains(j));
    }
}

/// The kept scan pass is at least as long as the pure match pass.
proof fn lemma_keep_ge_probe(sk: Seq<Option<ScalarV>>, pk: Seq<Option<ScalarV>>, n: int)
    ensures
        keep_scan_upto(sk, pk, n).len() >= inner_probe_upto(sk, pk, n).len(),
    decreases n,
{
    if n > 0 {
        lemma_keep_ge_probe(sk, pk, n - 1);
    }
}

/// Sort stability: two rows that tie on every key keep their original
/// relative order in the sorted permutation.
pub proof fn lemma_sort_stability(
    cols: Seq<Seq<Option<ScalarV>>>,
    desc: Seq<bool>,
    nulls_first: bool,
    perm: Seq<usize>,
    n: int,
    p: int,
    q: int,
)
    requires
        is_sort_perm(cols, desc, nulls_first, perm, n),
        n <= usize::MAX,
        0 <= p < q < n,
        rows_cmp(cols, desc, nulls_first, perm[p] as int, perm[q] as int) == Ordering::Equal,
    ensures
        perm[p] < perm[q],
{
    broadcast use group_to_multiset_ensures;
    broadcast use group_multiset_axioms;

    assert(rows_le(cols, desc, nulls_first, perm[p] as int, perm[q] as int));
    assert(perm[p] <= perm[q]);
    if perm[p] == perm[q] {
        // one row cannot stand at two output positions: the permutation
        // holds each row index exactly once
        let v = perm[p];
        let rest = perm.remove(p);
        assert(perm.to_multiset().count(v) == rest.to_multiset().count(v) + 1) by {
            assert(rest.to_multiset() == perm.to_multiset().remove(perm[p]));
        }
        assert(rest[q - 1] == v);
        assert(rest.contains(v));
        assert(rest.to_multiset().count(v) > 0);
        assert(perm.to_multiset().count(v) >= 2);
        lemma_identity_counts(n, v);
        assert(identity_indices(n).to_multiset().count(v) <= 1);
    }
}

/// Each row index below `n` stands exactly once in the identity
/// permutation.
proof fn lemma_identity_counts(n: int, v: usize)
    requires
        0 <= n <= usize::MAX,
    ensures
        identity_indices(n).to_multiset().count(v) <= 1,
{
    broadcast use group_to_multiset_ensures;
    broadcast use group_multiset_axioms;

    let ident = identity_indices(n);
    if ident.contains(v) {
        let p = choose|p: int| 0 <= p < ident.len() && ident[p] == v;
        assert(v as int == p);
        let rest = ident.remove(p);
        assert(rest.to_multiset() == ident.to_multiset().remove(v));
        assert forall|j: int| 0 <= j < rest.len() implies #[trigger] rest[j] != v by {
            if j < p {
                assert(rest[j] == ident[j]);
            } else {
                assert(rest[j] == ident[j + 1]);
            }
        }
        assert(!rest.contains(v));
        assert(rest.to_multiset().count(v) == 0);
        assert(ident.to_multiset().count(v) == 1);
    } else {
        assert(ident.to_multiset().count(v) == 0);
    }
}

/// The member-row counts of all groups, summed.
pub open spec fn total_group_members(gs: Seq<(Seq<crate::types::GroupKeyV>, Seq<usize>)>) -> int
    decreases gs.len(),
{
    if gs.len() == 0 {
        0
    } else {
        total_group_members(gs.drop_last()) + gs.last().1.len()
    }
}

/// How many of the first `n` rows carry a complete key.
pub open spec fn keyed_rows(kcols: Seq<Seq<Option<ScalarV>>>, n: int) -> int
    decreases n,
{
    if n <= 0 {
        0
    } else {
        keyed_rows(kcols, n - 1) + (if row_key(kcols, n - 1) is Some {
            1int
        } else {
            0int
        })
    }
}

/// Group coverage: the member counts of all groups sum to the number of
/// rows whose key columns hold no missing value. `count()` reports
/// exactly those member counts.
pub proof fn lemma_group_coverage(kcols: Seq<Seq<Option<ScalarV>>>, n: int)
    requires
        0 <= n <= usize::MAX,
    ensures
        total_group_members(groups_upto(kcols, n)) == keyed_rows(kcols, n),
    decreases n,
{
    if n > 0 {
        lemma_group_coverage(kcols, n - 1);
        let prev = groups_upto(kcols, n - 1);
        match row_key(kcols, n - 1) {
            None => {},
            Some(key) => {
                crate::groupby::lemma_find_group(prev, key);
                match crate::groupby::find_group(prev, key) {
                    Some(i) => {
                        let cur = prev.update(i, (key, prev[i].1.push((n - 1) as usize)));
                        lemma_total_update(prev, i, (key, prev[i].1.push((n - 1) as usize)));
                    },
                    None => {
                        let entry = (key, seq![(n - 1) as usize]);
                        let cur = prev.push(entry);
                        assert(cur.drop_last() =~= prev);
                        assert(total_group_members(cur) == total_group_members(prev) + 1);
                    },
                }
            },
        }
    }
}

/// Updating one group changes the total by the change in that group's
/// member count.
proof fn lemma_total_update(
    gs: Seq<(Seq<crate::types::GroupKeyV>, Seq<usize>)>,
    i: int,
    e: (Seq<crate::types::GroupKeyV>, Seq<usize>),
)
    requires
        0 <= i < gs.len(),
    ensures
        total_group_members(gs.update(i, e)) == total_group_members(gs) - gs[i].1.len()
            + e.1.len(),
    decreases gs.len(),
{
    let upd = gs.update(i, e);
    if i == gs.len() - 1 {
        assert(upd.drop_last() =~= gs.drop_last());
        assert(upd.last() == e);
    } else {
        assert(upd.drop_last() =~= gs.drop_last().update(i, e));
        assert(upd.last() == gs.last());
        lemma_total_update(gs.drop_last(), i, e);
    }
}

} // verus!
