//! The execution engine: the mathematical semantics of each physical
//! operator, the laws of the join, and the verified operators that lower
//! an optimized plan into a materialized table.
use vstd::prelude::*;

use crate::PolarsError;
use crate::expr::AggKind;
use crate::expr::ExprV;
use crate::expr::eval_expr_spec;
use crate::expr::expr_out_name;
use crate::expr::num_of;
use crate::expr::wrap64;
use crate::frame::ColV;
use crate::frame::df_find;
use crate::frame::df_height;
use crate::frame::take_cells;
use crate::frame::DataFrame;
use crate::frame::Series;
use crate::chunked::opt_view;
use crate::value::Value;
use crate::plan::PlanV;
use crate::value::DataType;
use crate::value::ValueV;
use crate::value::cell_eq;
use crate::value::val_eq;

verus! {

// ---------------------------------------------------------------------
// Filter semantics.
// ---------------------------------------------------------------------

/// The row indices a boolean mask keeps: exactly the rows whose mask
/// cell is a plain `true` (a null or false mask cell drops the row).
pub open spec fn filter_idxs(cells: Seq<Option<ValueV>>) -> Seq<int>
    decreases cells.len(),
{
    if cells.len() == 0 {
        Seq::empty()
    } else {
        filter_idxs(cells.drop_last()) + (if cells.last() == Some(ValueV::Bool(true)) {
            seq![cells.len() - 1]
        } else {
            Seq::<int>::empty()
        })
    }
}

pub open spec fn opt_idxs(s: Seq<int>) -> Seq<Option<int>> {
    s.map_values(|i: int| Some(i))
}

/// The rows a run of columns keeps under a selection, column by column.
pub open spec fn df_take_cols(df: Seq<ColV>, idxs: Seq<Option<int>>) -> Seq<ColV> {
    crate::frame::df_take(df, idxs)
}

// ---------------------------------------------------------------------
// Projection semantics.
// ---------------------------------------------------------------------

pub open spec fn eval_exprs_spec(exprs: Seq<ExprV>, df: Seq<ColV>) -> Result<
    Seq<ColV>,
    PolarsError,
>
    decreases exprs.len(),
{
    if exprs.len() == 0 {
        Ok(Seq::empty())
    } else {
        match eval_expr_spec(exprs[0], df) {
            Err(e) => Err(e),
            Ok(c) => match eval_exprs_spec(exprs.drop_first(), df) {
                Err(e) => Err(e),
                Ok(rest) => Ok(seq![c] + rest),
            },
        }
    }
}

pub open spec fn cols_unique(df: Seq<ColV>) -> bool {
    forall|i: int, j: int| 0 <= i < j < df.len() ==> df[i].name != df[j].name
}

// ---------------------------------------------------------------------
// Group-by semantics: rows whose key tuples are cell-equal (null keys
// equal among themselves) fall in one group; a group is named by its
// first row, and groups come in first-appearance order.
// ---------------------------------------------------------------------

/// The key tuple of one row.
pub open spec fn key_tuple(df: Seq<ColV>, kidx: Seq<int>, row: int) -> Seq<Option<ValueV>> {
    kidx.map_values(|c: int| df[c].cells[row])
}

/// Tuples equal cell by cell, a null cell equal to a null cell.
pub open spec fn tuple_eq(a: Seq<Option<ValueV>>, b: Seq<Option<ValueV>>) -> bool {
    a.len() == b.len() && forall|t: int| 0 <= t < a.len() ==> cell_eq(#[trigger] a[t], b[t])
}

/// Whether an earlier row (below `upto`) carries this row's key tuple.
pub open spec fn seen_before(df: Seq<ColV>, kidx: Seq<int>, row: int, upto: int) -> bool {
    exists|j: int|
        0 <= j < upto && tuple_eq(
            key_tuple(df, kidx, j),
            key_tuple(df, kidx, row),
        )
}

/// The group representatives among the first `n` rows: each row that no
/// earlier row matches, in row order.
pub open spec fn group_reps(df: Seq<ColV>, kidx: Seq<int>, n: int) -> Seq<int>
    decreases n,
{
    if n <= 0 {
        Seq::empty()
    } else {
        group_reps(df, kidx, n - 1) + (if seen_before(df, kidx, n - 1, n - 1) {
            Seq::<int>::empty()
        } else {
            seq![n - 1]
        })
    }
}

/// The member rows of the group of representative `rep`, among the
/// first `n` rows, in row order.
pub open spec fn group_members(df: Seq<ColV>, kidx: Seq<int>, n: int, rep: int) -> Seq<int>
    decreases n,
{
    if n <= 0 {
        Seq::empty()
    } else {
        group_members(df, kidx, n - 1, rep) + (if tuple_eq(
            key_tuple(df, kidx, n - 1),
            key_tuple(df, kidx, rep),
        ) {
            seq![n - 1]
        } else {
            Seq::<int>::empty()
        })
    }
}

// ---------------------------------------------------------------------
// Aggregation of one column to one scalar.
// ---------------------------------------------------------------------

/// The count of plain (non-null) cells, wrapped into 64 bits the way
/// the accumulator wraps.
pub open spec fn count_wrap(cells: Seq<Option<ValueV>>) -> int
    decreases cells.len(),
{
    if cells.len() == 0 {
        0
    } else {
        match cells.last() {
            Some(_) => wrap64(count_wrap(cells.drop_last()) + 1),
            None => count_wrap(cells.drop_last()),
        }
    }
}

/// Every plain cell is numeric, so a sum is defined.
pub open spec fn sum_ok(cells: Seq<Option<ValueV>>) -> bool {
    forall|i: int|
        0 <= i < cells.len() ==> match #[trigger] cells[i] {
            Some(v) => num_of(v) is Some,
            None => true,
        }
}

/// The 64-bit wrapping sum of the plain cells; nulls are skipped.
pub open spec fn sum_wrap(cells: Seq<Option<ValueV>>) -> int
    decreases cells.len(),
{
    if cells.len() == 0 {
        0
    } else {
        match cells.last() {
            Some(v) => match num_of(v) {
                Some(x) => wrap64(sum_wrap(cells.drop_last()) + x),
                None => sum_wrap(cells.drop_last()),
            },
            None => sum_wrap(cells.drop_last()),
        }
    }
}

/// One aggregation of one column of cells to one scalar cell.
pub open spec fn agg_cell(kind: AggKind, cells: Seq<Option<ValueV>>) -> Result<
    Option<ValueV>,
    PolarsError,
> {
    match kind {
        AggKind::Count => Ok(Some(ValueV::Int64(count_wrap(cells) as i64))),
        AggKind::Sum => if sum_ok(cells) {
            Ok(Some(ValueV::Int64(sum_wrap(cells) as i64)))
        } else {
            Err(PolarsError::TypeMismatch)
        },
    }
}

/// An aggregation entry taken apart: its output name, its kind, and the
/// operand expression under any aliases. Anything else is no entry.
pub open spec fn agg_parts(e: ExprV) -> Option<(Seq<char>, AggKind, ExprV)>
    decreases e,
{
    match e {
        ExprV::Agg { kind, expr } => Some((expr_out_name(*expr), kind, *expr)),
        ExprV::Alias { expr, name } => match agg_parts(*expr) {
            Some(p) => Some((name, p.1, p.2)),
            None => None,
        },
        _ => None,
    }
}

/// The cells of one aggregated output column: group by group, the
/// operand evaluated over the group's rows and aggregated.
pub open spec fn agg_col_cells(
    kind: AggKind,
    inner: ExprV,
    df: Seq<ColV>,
    kidx: Seq<int>,
    reps: Seq<int>,
    n: int,
) -> Result<Seq<Option<ValueV>>, PolarsError>
    decreases reps.len(),
{
    if reps.len() == 0 {
        Ok(Seq::empty())
    } else {
        let sub = df_take_cols(df, opt_idxs(group_members(df, kidx, n, reps[0])));
        match eval_expr_spec(inner, sub) {
            Err(e) => Err(e),
            Ok(c) => match agg_cell(kind, c.cells) {
                Err(e) => Err(e),
                Ok(cell) => match agg_col_cells(kind, inner, df, kidx, reps.drop_first(), n) {
                    Err(e) => Err(e),
                    Ok(rest) => Ok(seq![cell] + rest),
                },
            },
        }
    }
}

// ---------------------------------------------------------------------
// Join semantics.
// ---------------------------------------------------------------------

/// Whether a left key cell matches a right key cell: both plain and
/// value-equal. A null key matches nothing, not even another null.
pub open spec fn key_match(a: Option<ValueV>, b: Option<ValueV>) -> bool {
    match (a, b) {
        (Some(x), Some(y)) => val_eq(x, y),
        _ => false,
    }
}

/// The right rows (below `m`) one left key matches, ascending.
pub open spec fn row_matches(lk: Option<ValueV>, rk: Seq<Option<ValueV>>, m: int) -> Seq<int>
    decreases m,
{
    if m <= 0 {
        Seq::empty()
    } else {
        row_matches(lk, rk, m - 1) + (if key_match(lk, rk[m - 1]) {
            seq![m - 1]
        } else {
            Seq::<int>::empty()
        })
    }
}

/// The output rows driven by the first `n` left rows, in left order:
/// one row per match; for a left or outer join an unmatched left row
/// yields one row with a null right side.
pub open spec fn join_left_rows(
    lk: Seq<Option<ValueV>>,
    rk: Seq<Option<ValueV>>,
    how: crate::plan::JoinKind,
    n: int,
) -> Seq<(Option<int>, Option<int>)>
    decreases n,
{
    if n <= 0 {
        Seq::empty()
    } else {
        let ms = row_matches(lk[n - 1], rk, rk.len() as int);
        join_left_rows(lk, rk, how, n - 1) + (if ms.len() > 0 {
            ms.map_values(|j: int| (Some(n - 1), Some(j)))
        } else if how == crate::plan::JoinKind::Inner {
            Seq::<(Option<int>, Option<int>)>::empty()
        } else {
            seq![(Some(n - 1), None::<int>)]
        })
    }
}

/// Whether any left key matches this right key cell.
pub open spec fn right_matched(lk: Seq<Option<ValueV>>, rkj: Option<ValueV>) -> bool {
    exists|i: int| 0 <= i < lk.len() && key_match(#[trigger] lk[i], rkj)
}

/// The extra rows of an outer join: one per unmatched right row, with a
/// null left side, in right order.
pub open spec fn join_extra_rows(
    lk: Seq<Option<ValueV>>,
    rk: Seq<Option<ValueV>>,
    m: int,
) -> Seq<(Option<int>, Option<int>)>
    decreases m,
{
    if m <= 0 {
        Seq::empty()
    } else {
        join_extra_rows(lk, rk, m - 1) + (if right_matched(lk, rk[m - 1]) {
            Seq::<(Option<int>, Option<int>)>::empty()
        } else {
            seq![(None::<int>, Some(m - 1))]
        })
    }
}

/// All output row selections of an equi-join, deterministically ordered:
/// the left-driven rows, then, for an outer join, the unmatched right
/// rows.
pub open spec fn join_pairs(
    lk: Seq<Option<ValueV>>,
    rk: Seq<Option<ValueV>>,
    how: crate::plan::JoinKind,
) -> Seq<(Option<int>, Option<int>)> {
    join_left_rows(lk, rk, how, lk.len() as int) + (if how == crate::plan::JoinKind::Outer {
        join_extra_rows(lk, rk, rk.len() as int)
    } else {
        Seq::<(Option<int>, Option<int>)>::empty()
    })
}

/// The number of matching key pairs among the first `n` left rows.
pub open spec fn match_count(lk: Seq<Option<ValueV>>, rk: Seq<Option<ValueV>>, n: int) -> int
    decreases n,
{
    if n <= 0 {
        0
    } else {
        match_count(lk, rk, n - 1) + row_matches(lk[n - 1], rk, rk.len() as int).len()
    }
}

pub proof fn lemma_row_matches_len(lk: Option<ValueV>, rk: Seq<Option<ValueV>>, m: int)
    requires
        0 <= m,
    ensures
        0 <= row_matches(lk, rk, m).len() <= m,
    decreases m,
{
    if m > 0 {
        lemma_row_matches_len(lk, rk, m - 1);
    }
}

/// Join cardinality, inner side: the output row count is exactly the
/// number of matching key pairs, and at most left count times right
/// count.
pub proof fn lemma_inner_join_count(lk: Seq<Option<ValueV>>, rk: Seq<Option<ValueV>>)
    ensures
        join_pairs(lk, rk, crate::plan::JoinKind::Inner).len() == match_count(
            lk,
            rk,
            lk.len() as int,
        ),
        join_pairs(lk, rk, crate::plan::JoinKind::Inner).len() <= lk.len() * rk.len(),
{
    lemma_inner_join_count_upto(lk, rk, lk.len() as int);
    assert(join_pairs(lk, rk, crate::plan::JoinKind::Inner) =~= join_left_rows(
        lk,
        rk,
        crate::plan::JoinKind::Inner,
        lk.len() as int,
    ));
}

proof fn lemma_inner_join_count_upto(lk: Seq<Option<ValueV>>, rk: Seq<Option<ValueV>>, n: int)
    requires
        0 <= n <= lk.len(),
    ensures
        join_left_rows(lk, rk, crate::plan::JoinKind::Inner, n).len() == match_count(lk, rk, n),
        match_count(lk, rk, n) <= n * rk.len(),
    decreases n,
{
    if n > 0 {
        lemma_inner_join_count_upto(lk, rk, n - 1);
        lemma_row_matches_len(lk[n - 1], rk, rk.len() as int);
        assert((n - 1) * rk.len() + rk.len() == n * rk.len()) by (nonlinear_arith);
    }
}

/// Join cardinality, left side: a left join yields at least one row per
/// left row.
pub proof fn lemma_left_join_count(lk: Seq<Option<ValueV>>, rk: Seq<Option<ValueV>>)
    ensures
        join_pairs(lk, rk, crate::plan::JoinKind::Left).len() >= lk.len(),
{
    lemma_left_rows_at_least(lk, rk, crate::plan::JoinKind::Left, lk.len() as int);
}

proof fn lemma_left_rows_at_least(
    lk: Seq<Option<ValueV>>,
    rk: Seq<Option<ValueV>>,
    how: crate::plan::JoinKind,
    n: int,
)
    requires
        0 <= n <= lk.len(),
        how != crate::plan::JoinKind::Inner,
    ensures
        join_left_rows(lk, rk, how, n).len() >= n,
    decreases n,
{
    if n > 0 {
        lemma_left_rows_at_least(lk, rk, how, n - 1);
        lemma_row_matches_len(lk[n - 1], rk, rk.len() as int);
    }
}

/// The number of left rows below `n` whose key matches this right key.
pub open spec fn count_left_matching(lk: Seq<Option<ValueV>>, rkj: Option<ValueV>, n: int) -> int
    decreases n,
{
    if n <= 0 {
        0
    } else {
        count_left_matching(lk, rkj, n - 1) + (if key_match(lk[n - 1], rkj) {
            1int
        } else {
            0int
        })
    }
}

/// The number of (left row, right row) matching pairs with left row
/// below `n` and right row below `m`.
pub open spec fn count_pairs_to(
    lk: Seq<Option<ValueV>>,
    rk: Seq<Option<ValueV>>,
    n: int,
    m: int,
) -> int
    decreases n,
{
    if n <= 0 {
        0
    } else {
        count_pairs_to(lk, rk, n - 1, m) + row_matches(lk[n - 1], rk, m).len()
    }
}

/// The number of right rows below `m` that some left key matches.
pub open spec fn matched_below(lk: Seq<Option<ValueV>>, rk: Seq<Option<ValueV>>, m: int) -> int
    decreases m,
{
    if m <= 0 {
        0
    } else {
        matched_below(lk, rk, m - 1) + (if right_matched(lk, rk[m - 1]) {
            1int
        } else {
            0int
        })
    }
}

/// The number of right rows below `m` that no left key matches.
pub open spec fn unmatched_below(lk: Seq<Option<ValueV>>, rk: Seq<Option<ValueV>>, m: int) -> int
    decreases m,
{
    if m <= 0 {
        0
    } else {
        unmatched_below(lk, rk, m - 1) + (if right_matched(lk, rk[m - 1]) {
            0int
        } else {
            1int
        })
    }
}

proof fn lemma_extra_len(lk: Seq<Option<ValueV>>, rk: Seq<Option<ValueV>>, m: int)
    requires
        0 <= m,
    ensures
        join_extra_rows(lk, rk, m).len() == unmatched_below(lk, rk, m),
    decreases m,
{
    if m > 0 {
        lemma_extra_len(lk, rk, m - 1);
    }
}

proof fn lemma_matched_unmatched_sum(lk: Seq<Option<ValueV>>, rk: Seq<Option<ValueV>>, m: int)
    requires
        0 <= m,
    ensures
        matched_below(lk, rk, m) + unmatched_below(lk, rk, m) == m,
    decreases m,
{
    if m > 0 {
        lemma_matched_unmatched_sum(lk, rk, m - 1);
    }
}

proof fn lemma_row_matches_prefix_len(
    lk: Option<ValueV>,
    rk: Seq<Option<ValueV>>,
    m_all: int,
    m: int,
)
    requires
        0 <= m <= m_all,
    ensures
        row_matches(lk, rk, m).len() <= row_matches(lk, rk, m_all).len(),
    decreases m_all,
{
    if m < m_all {
        lemma_row_matches_prefix_len(lk, rk, m_all - 1, m);
    }
}

/// Adding one more right row to the window adds exactly the left rows
/// that match it.
proof fn lemma_count_pairs_step(lk: Seq<Option<ValueV>>, rk: Seq<Option<ValueV>>, n: int, m: int)
    requires
        0 <= n,
        1 <= m,
    ensures
        count_pairs_to(lk, rk, n, m) == count_pairs_to(lk, rk, n, m - 1) + count_left_matching(
            lk,
            rk[m - 1],
            n,
        ),
    decreases n,
{
    if n > 0 {
        lemma_count_pairs_step(lk, rk, n - 1, m);
    }
}

/// A matched right key is matched by at least one left row.
proof fn lemma_count_left_pos(lk: Seq<Option<ValueV>>, rkj: Option<ValueV>, w: int, n: int)
    requires
        0 <= w < n <= lk.len(),
        key_match(lk[w], rkj),
    ensures
        count_left_matching(lk, rkj, n) >= 1,
    decreases n,
{
    if w < n - 1 {
        lemma_count_left_pos(lk, rkj, w, n - 1);
        assert(count_left_matching(lk, rkj, n) >= count_left_matching(lk, rkj, n - 1));
    } else {
        lemma_count_left_nonneg(lk, rkj, n - 1);
    }
}

proof fn lemma_count_left_nonneg(lk: Seq<Option<ValueV>>, rkj: Option<ValueV>, n: int)
    requires
        0 <= n,
    ensures
        count_left_matching(lk, rkj, n) >= 0,
    decreases n,
{
    if n > 0 {
        lemma_count_left_nonneg(lk, rkj, n - 1);
    }
}

proof fn lemma_count_pairs_nonneg(lk: Seq<Option<ValueV>>, rk: Seq<Option<ValueV>>, n: int, m: int)
    requires
        0 <= n,
    ensures
        count_pairs_to(lk, rk, n, m) >= 0,
    decreases n,
{
    if n > 0 {
        lemma_count_pairs_nonneg(lk, rk, n - 1, m);
    }
}

/// The matched right rows below `m` number at most the matching pairs.
proof fn lemma_matched_le_pairs(lk: Seq<Option<ValueV>>, rk: Seq<Option<ValueV>>, m: int)
    requires
        0 <= m <= rk.len(),
    ensures
        matched_below(lk, rk, m) <= count_pairs_to(lk, rk, lk.len() as int, m),
    decreases m,
{
    if m == 0 {
        lemma_count_pairs_nonneg(lk, rk, lk.len() as int, 0);
    } else {
        lemma_matched_le_pairs(lk, rk, m - 1);
        lemma_count_pairs_step(lk, rk, lk.len() as int, m);
        if right_matched(lk, rk[m - 1]) {
            let w = choose|i: int| 0 <= i < lk.len() && key_match(#[trigger] lk[i], rk[m - 1]);
            lemma_count_left_pos(lk, rk[m - 1], w, lk.len() as int);
        } else {
            lemma_count_left_nonneg(lk, rk[m - 1], lk.len() as int);
        }
    }
}

/// The left-driven rows of a non-inner join number at least the
/// matching pairs in any right window.
proof fn lemma_pairs_le_left_rows(
    lk: Seq<Option<ValueV>>,
    rk: Seq<Option<ValueV>>,
    how: crate::plan::JoinKind,
    n: int,
    m: int,
)
    requires
        0 <= n <= lk.len(),
        0 <= m <= rk.len(),
    ensures
        join_left_rows(lk, rk, how, n).len() >= count_pairs_to(lk, rk, n, m),
    decreases n,
{
    if n > 0 {
        lemma_pairs_le_left_rows(lk, rk, how, n - 1, m);
        lemma_row_matches_prefix_len(lk[n - 1], rk, rk.len() as int, m);
        lemma_row_matches_len(lk[n - 1], rk, m);
        lemma_row_matches_len(lk[n - 1], rk, rk.len() as int);
    }
}

/// Join cardinality, outer side: an outer join yields at least as many
/// rows as either input.
pub proof fn lemma_outer_join_count(lk: Seq<Option<ValueV>>, rk: Seq<Option<ValueV>>)
    ensures
        join_pairs(lk, rk, crate::plan::JoinKind::Outer).len() >= lk.len(),
        join_pairs(lk, rk, crate::plan::JoinKind::Outer).len() >= rk.len(),
{
    let m = rk.len() as int;
    lemma_left_rows_at_least(lk, rk, crate::plan::JoinKind::Outer, lk.len() as int);
    lemma_extra_len(lk, rk, m);
    lemma_matched_unmatched_sum(lk, rk, m);
    lemma_matched_le_pairs(lk, rk, m);
    lemma_pairs_le_left_rows(lk, rk, crate::plan::JoinKind::Outer, lk.len() as int, m);
}

/// Null-key join semantics: a row with a null join key matches no row
/// at all, not even another null-keyed row.
pub proof fn lemma_null_key_matches_nothing(
    lk: Option<ValueV>,
    rk: Seq<Option<ValueV>>,
    m: int,
)
    requires
        lk is None,
        0 <= m,
    ensures
        row_matches(lk, rk, m) == Seq::<int>::empty(),
    decreases m,
{
    if m > 0 {
        lemma_null_key_matches_nothing(lk, rk, m - 1);
        assert(row_matches(lk, rk, m) =~= Seq::<int>::empty());
    }
}

/// Every pair an inner join emits is a true key match: the two rows
/// exist and their keys are plain and value-equal.
pub proof fn lemma_inner_pairs_are_matches(
    lk: Seq<Option<ValueV>>,
    rk: Seq<Option<ValueV>>,
    n: int,
)
    requires
        0 <= n <= lk.len(),
    ensures
        forall|k: int|
            0 <= k < join_left_rows(lk, rk, crate::plan::JoinKind::Inner, n).len()
                ==> match #[trigger] join_left_rows(lk, rk, crate::plan::JoinKind::Inner, n)[k] {
                (Some(i), Some(j)) => 0 <= i < n && 0 <= j < rk.len() && key_match(lk[i], rk[j]),
                _ => false,
            },
    decreases n,
{
    if n > 0 {
        lemma_inner_pairs_are_matches(lk, rk, n - 1);
        lemma_row_matches_are_matches(lk[n - 1], rk, rk.len() as int);
        let prev = join_left_rows(lk, rk, crate::plan::JoinKind::Inner, n - 1);
        let ms = row_matches(lk[n - 1], rk, rk.len() as int);
        let cur = join_left_rows(lk, rk, crate::plan::JoinKind::Inner, n);
        assert forall|k: int| 0 <= k < cur.len() implies match #[trigger] cur[k] {
            (Some(i), Some(j)) => 0 <= i < n && 0 <= j < rk.len() && key_match(lk[i], rk[j]),
            _ => false,
        } by {
            if k < prev.len() {
                assert(cur[k] == prev[k]);
            } else if ms.len() > 0 {
                let t = k - prev.len();
                assert(cur[k] == ms.map_values(|j: int| (Some(n - 1), Some(j)))[t]);
                assert(cur[k] == (Some(n - 1), Some(ms[t])));
                assert(0 <= ms[t] < rk.len() && key_match(lk[n - 1], rk[ms[t]]));
            }
        }
    }
}

pub proof fn lemma_row_matches_are_matches(lk: Option<ValueV>, rk: Seq<Option<ValueV>>, m: int)
    requires
        0 <= m <= rk.len(),
    ensures
        forall|k: int|
            0 <= k < row_matches(lk, rk, m).len() ==> 0 <= #[trigger] row_matches(lk, rk, m)[k]
                < m && key_match(lk, rk[row_matches(lk, rk, m)[k]]),
    decreases m,
{
    if m > 0 {
        lemma_row_matches_are_matches(lk, rk, m - 1);
        let prev = row_matches(lk, rk, m - 1);
        let cur = row_matches(lk, rk, m);
        assert forall|k: int| 0 <= k < cur.len() implies 0 <= #[trigger] cur[k] < m && key_match(
            lk,
            rk[cur[k]],
        ) by {
            if k < prev.len() {
                assert(cur[k] == prev[k]);
            }
        }
    }
}

// ---------------------------------------------------------------------
// Sort semantics: a stable insertion sort of the row indices by the key
// column's native order, nulls last either way.
// ---------------------------------------------------------------------

/// Text order: lexicographic by character code.
pub open spec fn str_lt(a: Seq<char>, b: Seq<char>) -> bool
    decreases a.len(),
{
    if b.len() == 0 {
        false
    } else if a.len() == 0 {
        true
    } else if (a[0] as u32) < (b[0] as u32) {
        true
    } else if a[0] != b[0] {
        false
    } else {
        str_lt(a.drop_first(), b.drop_first())
    }
}

/// Whether value `a` comes strictly after value `b` in the requested
/// direction. Values of different kinds never reorder.
pub open spec fn val_after(a: ValueV, b: ValueV, reverse: bool) -> bool {
    match (num_of(a), num_of(b)) {
        (Some(x), Some(y)) => if reverse {
            x < y
        } else {
            x > y
        },
        _ => match (a, b) {
            (ValueV::Bool(x), ValueV::Bool(y)) => if reverse {
                !x && y
            } else {
                x && !y
            },
            (ValueV::Str(x), ValueV::Str(y)) => if reverse {
                str_lt(x, y)
            } else {
                str_lt(y, x)
            },
            _ => false,
        },
    }
}

/// Whether the cell at `a` must come strictly after the cell at `b`:
/// nulls sort last in either direction.
pub open spec fn cell_after(a: Option<ValueV>, b: Option<ValueV>, reverse: bool) -> bool {
    match (a, b) {
        (None, Some(_)) => true,
        (Some(_), None) => false,
        (None, None) => false,
        (Some(x), Some(y)) => val_after(x, y, reverse),
    }
}

/// Stable insertion of row `i` into a sorted run of rows: `i` walks in
/// from the end past every row whose cell must come after its own, and
/// stays behind equals.
pub open spec fn insert_idx(
    sorted: Seq<int>,
    i: int,
    cells: Seq<Option<ValueV>>,
    reverse: bool,
) -> Seq<int>
    decreases sorted.len(),
{
    if sorted.len() == 0 {
        seq![i]
    } else if cell_after(cells[sorted.last()], cells[i], reverse) {
        insert_idx(sorted.drop_last(), i, cells, reverse) + seq![sorted.last()]
    } else {
        sorted + seq![i]
    }
}

/// The stable sort permutation of the first `n` rows by their cells.
pub open spec fn sort_perm(cells: Seq<Option<ValueV>>, reverse: bool, n: int) -> Seq<int>
    decreases n,
{
    if n <= 0 {
        Seq::empty()
    } else {
        insert_idx(sort_perm(cells, reverse, n - 1), n - 1, cells, reverse)
    }
}


// ---------------------------------------------------------------------
// The whole-plan semantics.
// ---------------------------------------------------------------------

/// The columns whose names are among `ns`, kept in source order.
pub open spec fn project_cols(df: Seq<ColV>, ns: Seq<Seq<char>>) -> Seq<ColV>
    decreases df.len(),
{
    if df.len() == 0 {
        Seq::empty()
    } else {
        (if ns.contains(df[0].name) {
            seq![df[0]]
        } else {
            Seq::<ColV>::empty()
        }) + project_cols(df.drop_first(), ns)
    }
}

/// The indices of the named key columns, or `None` if one is absent.
pub open spec fn key_idxs(df: Seq<ColV>, keys: Seq<Seq<char>>) -> Option<Seq<int>>
    decreases keys.len(),
{
    if keys.len() == 0 {
        Some(Seq::empty())
    } else {
        match (df_find(df, keys[0]), key_idxs(df, keys.drop_first())) {
            (Some(i), Some(rest)) => Some(seq![i] + rest),
            _ => None,
        }
    }
}

/// The output key columns of a group-by: the key columns at the group
/// representatives.
pub open spec fn key_out_cols(df: Seq<ColV>, kidx: Seq<int>, reps: Seq<int>) -> Seq<ColV> {
    kidx.map_values(
        |c: int|
            ColV {
                name: df[c].name,
                dtype: df[c].dtype,
                cells: take_cells(df[c].cells, opt_idxs(reps)),
            },
    )
}

/// The aggregated output columns, one per entry; an entry that is not
/// an aggregation is a type failure.
pub open spec fn agg_out_cols(
    aggs: Seq<ExprV>,
    df: Seq<ColV>,
    kidx: Seq<int>,
    reps: Seq<int>,
    n: int,
) -> Result<Seq<ColV>, PolarsError>
    decreases aggs.len(),
{
    if aggs.len() == 0 {
        Ok(Seq::empty())
    } else {
        match agg_parts(aggs[0]) {
            None => Err(PolarsError::TypeMismatch),
            Some(parts) => match agg_col_cells(parts.1, parts.2, df, kidx, reps, n) {
                Err(e) => Err(e),
                Ok(cells) => match agg_out_cols(aggs.drop_first(), df, kidx, reps, n) {
                    Err(e) => Err(e),
                    Ok(rest) => Ok(
                        seq![ColV { name: parts.0, dtype: DataType::Int64, cells }] + rest,
                    ),
                },
            },
        }
    }
}

/// The right-side columns of a join renamed where they clash with a
/// left-side name.
pub open spec fn rename_right_cols(l: Seq<ColV>, r: Seq<ColV>) -> Seq<ColV> {
    r.map_values(
        |c: ColV|
            if df_find(l, c.name) is Some {
                ColV { name: c.name + "_right"@, dtype: c.dtype, cells: c.cells }
            } else {
                c
            },
    )
}

/// One filter step on a materialized table.
pub open spec fn filter_step(df: Seq<ColV>, predicate: ExprV) -> Result<Seq<ColV>, PolarsError> {
    match eval_expr_spec(predicate, df) {
        Err(e) => Err(e),
        Ok(mask) => if mask.dtype == DataType::Boolean {
            Ok(df_take_cols(df, opt_idxs(filter_idxs(mask.cells))))
        } else {
            Err(PolarsError::TypeMismatch)
        },
    }
}

/// One projection step on a materialized table.
pub open spec fn projection_step(df: Seq<ColV>, exprs: Seq<ExprV>) -> Result<
    Seq<ColV>,
    PolarsError,
> {
    match eval_exprs_spec(exprs, df) {
        Err(e) => Err(e),
        Ok(cols) => if cols_unique(cols) {
            Ok(cols)
        } else {
            Err(PolarsError::DuplicateColumn)
        },
    }
}

/// One group-by-and-aggregate step on a materialized table.
pub open spec fn aggregate_step(df: Seq<ColV>, keys: Seq<Seq<char>>, aggs: Seq<ExprV>) -> Result<
    Seq<ColV>,
    PolarsError,
> {
    match key_idxs(df, keys) {
        None => Err(PolarsError::UnknownColumn),
        Some(kidx) => {
            let n = df_height(df);
            let reps = group_reps(df, kidx, n);
            match agg_out_cols(aggs, df, kidx, reps, n) {
                Err(e) => Err(e),
                Ok(acols) => {
                    let out = key_out_cols(df, kidx, reps) + acols;
                    if cols_unique(out) {
                        Ok(out)
                    } else {
                        Err(PolarsError::DuplicateColumn)
                    }
                },
            }
        },
    }
}

/// One join step on two materialized tables.
pub open spec fn join_step(
    ldf: Seq<ColV>,
    rdf: Seq<ColV>,
    how: crate::plan::JoinKind,
    left_on: ExprV,
    right_on: ExprV,
) -> Result<Seq<ColV>, PolarsError> {
    match (eval_expr_spec(left_on, ldf), eval_expr_spec(right_on, rdf)) {
        (Err(e), _) => Err(e),
        (Ok(_), Err(e)) => Err(e),
        (Ok(lk), Ok(rk)) => if lk.dtype != rk.dtype {
            Err(PolarsError::JoinKeyTypeMismatch)
        } else {
            let pairs = join_pairs(lk.cells, rk.cells, how);
            let lout = df_take_cols(ldf, pairs.map_values(|pr: (Option<int>, Option<int>)| pr.0));
            let rout = df_take_cols(rdf, pairs.map_values(|pr: (Option<int>, Option<int>)| pr.1));
            let out = lout + rename_right_cols(ldf, rout);
            if cols_unique(out) {
                Ok(out)
            } else {
                Err(PolarsError::DuplicateColumn)
            }
        },
    }
}

/// One sort step on a materialized table.
pub open spec fn sort_step(df: Seq<ColV>, by: Seq<char>, reverse: bool) -> Result<
    Seq<ColV>,
    PolarsError,
> {
    match df_find(df, by) {
        None => Err(PolarsError::UnknownColumn),
        Some(c) => Ok(df_take_cols(df, opt_idxs(sort_perm(df[c].cells, reverse, df_height(df))))),
    }
}

/// The meaning of a whole plan: the table a successful execution
/// returns, or the first operator failure.
pub open spec fn run_plan(p: PlanV) -> Result<Seq<ColV>, PolarsError>
    decreases p,
{
    match p {
        PlanV::Scan { df, projection } => match projection {
            None => Ok(df),
            Some(ns) => Ok(project_cols(df, ns)),
        },
        PlanV::Filter { input, predicate } => match run_plan(*input) {
            Err(e) => Err(e),
            Ok(df) => filter_step(df, predicate),
        },
        PlanV::Projection { input, exprs } => match run_plan(*input) {
            Err(e) => Err(e),
            Ok(df) => projection_step(df, exprs),
        },
        PlanV::Aggregate { input, keys, aggs } => match run_plan(*input) {
            Err(e) => Err(e),
            Ok(df) => aggregate_step(df, keys, aggs),
        },
        PlanV::Join { left, right, how, left_on, right_on } => match (
            run_plan(*left),
            run_plan(*right),
        ) {
            (Err(e), _) => Err(e),
            (Ok(_), Err(e)) => Err(e),
            (Ok(ldf), Ok(rdf)) => join_step(ldf, rdf, how, left_on, right_on),
        },
        PlanV::Sort { input, by, reverse } => match run_plan(*input) {
            Err(e) => Err(e),
            Ok(df) => sort_step(df, by, reverse),
        },
    }
}

// ---------------------------------------------------------------------
// The executable operators.
// ---------------------------------------------------------------------

fn cell_eq_exec(a: &Option<Value>, b: &Option<Value>) -> (r: bool)
    ensures
        r == cell_eq(opt_view(*a), opt_view(*b)),
{
    match (a, b) {
        (Some(x), Some(y)) => x.eq_value(y),
        (None, None) => true,
        _ => false,
    }
}

/// Keeps the named columns, in source order, as `project_cols` says.
fn exec_project_cols(df: &DataFrame, ns: &Vec<String>) -> (r: DataFrame)
    requires
        df.wf(),
    ensures
        r.wf(),
        r@ == project_cols(df@, crate::plan::names_view(ns@)),
{
    let ncols = df.columns.len();
    let ghost dv = df@;
    let ghost nv = crate::plan::names_view(ns@);
    let mut out: Vec<Series> = Vec::new();
    let mut c: usize = 0;
    proof {
        assert(dv.skip(0) =~= dv);
        assert(crate::frame::cols_view(out@) + project_cols(dv, nv) =~= project_cols(dv, nv));
    }
    while c < ncols
        invariant
            df.wf(),
            ncols == df.columns@.len(),
            dv == df@,
            nv == crate::plan::names_view(ns@),
            c <= ncols,
            forall|k: int| 0 <= k < out@.len() ==> (#[trigger] out@[k]).wf(),
            project_cols(dv, nv) == crate::frame::cols_view(out@) + project_cols(
                dv.skip(c as int),
                nv,
            ),
        decreases ncols - c,
    {
        proof {
            assert(dv.skip(c as int)[0] == dv[c as int]);
            assert(dv.skip(c as int).drop_first() =~= dv.skip(c + 1));
        }
        let ghost prev = out@;
        if ns_contains_here(ns, df.columns[c].ca.get_name()) {
            let cells = df.columns[c].ca.to_opt_vec();
            let srs = Series::new_opt(
                df.columns[c].ca.get_name().as_str(),
                df.columns[c].dtype,
                &cells,
            );
            proof {
                assert(srs.view_col().cells =~= dv[c as int].cells);
                assert(srs.view_col() =~= dv[c as int]);
            }
            out.push(srs);
            proof {
                assert forall|k: int| 0 <= k < prev.len() implies #[trigger] crate::frame::cols_view(
                    out@,
                )[k] == crate::frame::cols_view(prev)[k] by {
                    assert(out@[k] == prev[k]);
                }
                assert(crate::frame::cols_view(out@) =~= crate::frame::cols_view(prev) + seq![dv[c as int]]);
                assert(crate::frame::cols_view(out@) + project_cols(dv.skip(c + 1), nv)
                    =~= crate::frame::cols_view(prev) + (seq![dv[c as int]] + project_cols(
                    dv.skip(c + 1),
                    nv,
                )));
            }
        }
        c += 1;
    }
    proof {
        assert(dv.skip(ncols as int) =~= Seq::<ColV>::empty());
        assert(crate::frame::cols_view(out@) + project_cols(dv.skip(ncols as int), nv)
            =~= crate::frame::cols_view(out@));
    }
    let r = DataFrame { columns: out };
    proof {
        lemma_project_cols_wf(dv, nv);
        assert(crate::frame::df_wf_v(r@));
    }
    r
}

fn ns_contains_here(names: &Vec<String>, n: &String) -> (r: bool)
    ensures
        r == crate::plan::names_view(names@).contains(n@),
{
    let m = names.len();
    let mut i: usize = 0;
    while i < m
        invariant
            m == names@.len(),
            i <= m,
            forall|j: int| 0 <= j < i ==> (#[trigger] crate::plan::names_view(names@)[j]) != n@,
        decreases m - i,
    {
        if names[i] == *n {
            proof {
                assert(crate::plan::names_view(names@)[i as int] == n@);
            }
            return true;
        }
        proof {
            assert(crate::plan::names_view(names@)[i as int] == names@[i as int]@);
        }
        i += 1;
    }
    proof {
        assert(!crate::plan::names_view(names@).contains(n@));
    }
    false
}

/// Narrowing keeps the heights of the kept columns.
proof fn lemma_project_heights(df: Seq<ColV>, ns: Seq<Seq<char>>, h: int)
    requires
        forall|i: int| 0 <= i < df.len() ==> (#[trigger] df[i].cells).len() == h,
    ensures
        forall|k: int|
            0 <= k < project_cols(df, ns).len() ==> (#[trigger] project_cols(df, ns)[k].cells).len()
                == h,
    decreases df.len(),
{
    if df.len() != 0 {
        lemma_project_heights(df.drop_first(), ns, h);
        let rest = project_cols(df.drop_first(), ns);
        let cur = project_cols(df, ns);
        let off: int = if ns.contains(df[0].name) {
            1
        } else {
            0
        };
        assert forall|k: int| 0 <= k < cur.len() implies (#[trigger] cur[k].cells).len() == h by {
            if k >= off {
                assert(cur[k] == rest[k - off]);
            } else {
                assert(cur[k] == df[0]);
            }
        }
    }
}

/// Every kept column's name is a source column name.
proof fn lemma_project_names_mem(df: Seq<ColV>, ns: Seq<Seq<char>>)
    ensures
        forall|k: int|
            0 <= k < project_cols(df, ns).len() ==> exists|j: int|
                0 <= j < df.len() && (#[trigger] project_cols(df, ns)[k]).name == df[j].name,
    decreases df.len(),
{
    if df.len() != 0 {
        lemma_project_names_mem(df.drop_first(), ns);
        let rest = project_cols(df.drop_first(), ns);
        let cur = project_cols(df, ns);
        let off: int = if ns.contains(df[0].name) {
            1
        } else {
            0
        };
        assert forall|k: int| 0 <= k < cur.len() implies exists|j: int|
            0 <= j < df.len() && (#[trigger] cur[k]).name == df[j].name by {
            if k >= off {
                assert(cur[k] == rest[k - off]);
                let jj = choose|j: int|
                    0 <= j < df.drop_first().len() && (#[trigger] rest[k - off]).name
                        == df.drop_first()[j].name;
                assert(cur[k].name == df[jj + 1].name);
            } else {
                assert(cur[k] == df[0]);
                assert(cur[k].name == df[0].name);
            }
        }
    }
}

/// Narrowing keeps names pairwise distinct.
proof fn lemma_project_unique(df: Seq<ColV>, ns: Seq<Seq<char>>)
    requires
        forall|i: int, j: int| 0 <= i < j < df.len() ==> df[i].name != df[j].name,
    ensures
        forall|k1: int, k2: int|
            0 <= k1 < k2 < project_cols(df, ns).len() ==> project_cols(df, ns)[k1].name
                != project_cols(df, ns)[k2].name,
    decreases df.len(),
{
    if df.len() != 0 {
        assert forall|i: int, j: int| 0 <= i < j < df.drop_first().len() implies df.drop_first()[i].name != df.drop_first()[j].name by {
            assert(df.drop_first()[i] == df[i + 1] && df.drop_first()[j] == df[j + 1]);
        }
        lemma_project_unique(df.drop_first(), ns);
        lemma_project_names_mem(df.drop_first(), ns);
        let rest = project_cols(df.drop_first(), ns);
        let cur = project_cols(df, ns);
        let off: int = if ns.contains(df[0].name) {
            1
        } else {
            0
        };
        assert forall|k1: int, k2: int| 0 <= k1 < k2 < cur.len() implies cur[k1].name != cur[k2].name by {
            assert(cur[k2] == rest[k2 - off]);
            if k1 >= off {
                assert(cur[k1] == rest[k1 - off]);
            } else {
                assert(cur[k1] == df[0]);
                let jj = choose|j: int|
                    0 <= j < df.drop_first().len() && (#[trigger] rest[k2 - off]).name
                        == df.drop_first()[j].name;
                assert(rest[k2 - off].name == df[jj + 1].name);
                assert(df[0].name != df[jj + 1].name);
            }
        }
    }
}

/// Narrowing keeps a table well formed.
proof fn lemma_project_cols_wf(df: Seq<ColV>, ns: Seq<Seq<char>>)
    requires
        crate::frame::df_wf_v(df),
    ensures
        crate::frame::df_wf_v(project_cols(df, ns)),
{
    lemma_project_heights(df, ns, df_height(df));
    lemma_project_unique(df, ns);
    let cur = project_cols(df, ns);
    if cur.len() > 0 {
        assert(df_height(cur) == cur[0].cells.len());
    }
}

/// The filter's kept row indices lie in range.
proof fn lemma_filter_idxs_bounds(cells: Seq<Option<ValueV>>)
    ensures
        forall|k: int|
            0 <= k < filter_idxs(cells).len() ==> 0 <= #[trigger] filter_idxs(cells)[k]
                < cells.len(),
    decreases cells.len(),
{
    if cells.len() != 0 {
        lemma_filter_idxs_bounds(cells.drop_last());
        let prev = filter_idxs(cells.drop_last());
        let cur = filter_idxs(cells);
        assert forall|k: int| 0 <= k < cur.len() implies 0 <= #[trigger] cur[k] < cells.len() by {
            if k < prev.len() {
                assert(cur[k] == prev[k]);
            }
        }
    }
}

/// Keeps the rows whose mask cell is a plain `true`.
fn exec_filter_mask(df: &DataFrame, mask: &Series) -> (r: DataFrame)
    requires
        df.wf(),
        mask.wf(),
        mask.view_col().cells.len() == df_height(df@),
    ensures
        r.wf(),
        r@ == df_take_cols(df@, opt_idxs(filter_idxs(mask.view_col().cells))),
{
    let cells = mask.ca.to_opt_vec();
    let ghost mv = mask.view_col().cells;
    let n = cells.len();
    let mut keep: Vec<Option<usize>> = Vec::new();
    let mut i: usize = 0;
    proof {
        assert(mv.take(0) =~= Seq::<Option<ValueV>>::empty());
        assert(crate::frame::idxs_view(keep@) =~= opt_idxs(filter_idxs(mv.take(0))));
    }
    while i < n
        invariant
            n == cells@.len(),
            cells@.map_values(|c: Option<Value>| opt_view(c)) == mv,
            n == mv.len(),
            i <= n,
            forall|k: int|
                0 <= k < keep@.len() ==> match #[trigger] keep@[k] {
                    Some(j) => j < n,
                    None => false,
                },
            crate::frame::idxs_view(keep@) == opt_idxs(filter_idxs(mv.take(i as int))),
        decreases n - i,
    {
        proof {
            assert(mv.take(i + 1).drop_last() =~= mv.take(i as int));
            assert(mv.take(i + 1).last() == mv[i as int]);
            assert(opt_view(cells@[i as int]) == mv[i as int]);
        }
        let ghost prevk = keep@;
        let is_true: bool = match &cells[i] {
            Some(Value::Bool(b)) => *b,
            _ => false,
        };
        if is_true {
            keep.push(Some(i));
            proof {
                assert forall|k: int| 0 <= k < prevk.len() implies #[trigger] crate::frame::idxs_view(
                    keep@,
                )[k] == crate::frame::idxs_view(prevk)[k] by {
                    assert(keep@[k] == prevk[k]);
                }
                assert(mv.take(i + 1).last() == Some(ValueV::Bool(true)));
                assert(filter_idxs(mv.take(i + 1)) =~= filter_idxs(mv.take(i as int)) + seq![i as int]);
                assert(crate::frame::idxs_view(keep@)[prevk.len() as int] == Some(i as int));
                assert(crate::frame::idxs_view(prevk).len() == opt_idxs(filter_idxs(mv.take(
                    i as int,
                ))).len());
                assert forall|k: int| 0 <= k < keep@.len() implies #[trigger] crate::frame::idxs_view(
                    keep@,
                )[k] == opt_idxs(filter_idxs(mv.take(i + 1)))[k] by {
                    if k < prevk.len() {
                        assert(crate::frame::idxs_view(keep@)[k] == crate::frame::idxs_view(
                            prevk,
                        )[k]);
                        assert(crate::frame::idxs_view(prevk)[k] == opt_idxs(filter_idxs(mv.take(
                            i as int,
                        )))[k]);
                        assert(filter_idxs(mv.take(i + 1))[k] == filter_idxs(mv.take(i as int))[k]);
                    } else {
                        assert(filter_idxs(mv.take(i + 1))[k] == i as int);
                    }
                }
                assert(crate::frame::idxs_view(keep@) =~= opt_idxs(filter_idxs(mv.take(i + 1))));
            }
        } else {
            proof {
                assert(filter_idxs(mv.take(i + 1)) =~= filter_idxs(mv.take(i as int)));
            }
        }
        i += 1;
    }
    proof {
        assert(mv.take(n as int) =~= mv);
        lemma_filter_idxs_bounds(mv);
        assert forall|k: int| 0 <= k < keep@.len() implies match #[trigger] keep@[k] {
            Some(j) => j < df_height(df@),
            None => true,
        } by {
            assert(crate::frame::idxs_view(keep@)[k] == opt_idxs(filter_idxs(mv))[k]);
        }
    }
    let r = df.take_opt(&keep);
    r
}

/// Evaluates a projection's expressions into a fresh table.
fn exec_projection_cols(df: &DataFrame, exprs: &Vec<crate::expr::Expr>) -> (r: Result<
    DataFrame,
    PolarsError,
>)
    requires
        df.wf(),
    ensures
        match r {
            Ok(out) => out.wf() && {
                &&& eval_exprs_spec(crate::plan::exprs_view(exprs@), df@) matches Ok(cols)
                &&& cols_unique(cols)
                &&& out@ == cols
            },
            Err(er) => {
                ||| (eval_exprs_spec(crate::plan::exprs_view(exprs@), df@) matches Ok(cols)
                    && !cols_unique(cols) && er == PolarsError::DuplicateColumn)
                ||| eval_exprs_spec(crate::plan::exprs_view(exprs@), df@) == Err::<
                    Seq<ColV>,
                    PolarsError,
                >(er)
            },
        },
{
    let n = exprs.len();
    let ghost ev = crate::plan::exprs_view(exprs@);
    let mut out: Vec<Series> = Vec::new();
    let mut i: usize = 0;
    proof {
        assert(ev.skip(0) =~= ev);
        match eval_exprs_spec(ev, df@) {
            Ok(cols) => {
                assert(crate::frame::cols_view(out@) + cols =~= cols);
            },
            Err(_) => {},
        }
    }
    while i < n
        invariant
            df.wf(),
            n == exprs@.len(),
            ev == crate::plan::exprs_view(exprs@),
            i <= n,
            forall|k: int| 0 <= k < out@.len() ==> (#[trigger] out@[k]).wf(),
            forall|k: int|
                0 <= k < out@.len() ==> (#[trigger] out@[k]).view_col().cells.len() == df_height(
                    df@,
                ),
            eval_exprs_spec(ev, df@) == (match eval_exprs_spec(ev.skip(i as int), df@) {
                Ok(rest) => Ok::<Seq<ColV>, PolarsError>(crate::frame::cols_view(out@) + rest),
                Err(e) => Err(e),
            }),
        decreases n - i,
    {
        proof {
            assert(ev.skip(i as int)[0] == ev[i as int]);
            assert(ev.skip(i as int).drop_first() =~= ev.skip(i + 1));
            assert(ev[i as int] == exprs@[i as int]@);
        }
        let ghost prev = out@;
        match crate::expr::eval_expr(&exprs[i], df) {
            Ok(srs) => {
                proof {
                    crate::expr::lemma_eval_len(ev[i as int], df@);
                }
                out.push(srs);
                proof {
                    assert forall|k: int| 0 <= k < prev.len() implies
                        #[trigger] crate::frame::cols_view(out@)[k] == crate::frame::cols_view(
                        prev,
                    )[k] by {
                        assert(out@[k] == prev[k]);
                    }
                    match eval_exprs_spec(ev.skip(i + 1), df@) {
                        Ok(rest) => {
                            assert(crate::frame::cols_view(out@) + rest
                                =~= crate::frame::cols_view(prev) + (seq![
                                crate::frame::cols_view(out@)[prev.len() as int],
                            ] + rest));
                        },
                        Err(_) => {},
                    }
                }
            },
            Err(er) => {
                return Err(er);
            },
        }
        i += 1;
    }
    proof {
        assert(ev.skip(n as int) =~= Seq::<ExprV>::empty());
        assert(crate::frame::cols_view(out@) + Seq::<ColV>::empty() =~= crate::frame::cols_view(
            out@,
        ));
    }
    let ghost outv = crate::frame::cols_view(out@);
    if !cols_unique_check(&out) {
        return Err(PolarsError::DuplicateColumn);
    }
    let res = DataFrame { columns: out };
    proof {
        assert forall|k: int| 0 <= k < outv.len() implies (#[trigger] outv[k].cells).len()
            == crate::frame::df_height(outv) by {
            assert(outv[k] == res.columns@[k].view_col());
            if outv.len() > 0 {
                assert(outv[0] == res.columns@[0].view_col());
            }
        }
        assert(crate::frame::df_wf_v(res@));
    }
    Ok(res)
}

/// Whether no column name repeats.
fn cols_unique_check(cols: &Vec<Series>) -> (r: bool)
    ensures
        r == cols_unique(crate::frame::cols_view(cols@)),
{
    let n = cols.len();
    let ghost cv = crate::frame::cols_view(cols@);
    let mut i: usize = 0;
    while i < n
        invariant
            n == cols@.len(),
            cv == crate::frame::cols_view(cols@),
            i <= n,
            forall|k1: int, k2: int| 0 <= k1 < k2 < n && k2 < i ==> cv[k1].name != cv[k2].name,
        decreases n - i,
    {
        let mut j: usize = 0;
        while j < i
            invariant
                n == cols@.len(),
                cv == crate::frame::cols_view(cols@),
                j <= i < n,
                forall|k: int| 0 <= k < j ==> (#[trigger] cv[k].name) != cv[i as int].name,
            decreases i - j,
        {
            if *cols[j].ca.get_name() == *cols[i].ca.get_name() {
                proof {
                    assert(cv[j as int].name == cv[i as int].name);
                }
                return false;
            }
            proof {
                assert(cv[j as int].name == cols@[j as int].view_col().name);
                assert(cv[i as int].name == cols@[i as int].view_col().name);
            }
            j += 1;
        }
        i += 1;
    }
    true
}


fn str_lt_exec(a: &str, b: &str) -> (r: bool)
    ensures
        r == str_lt(a@, b@),
{
    let na = a.unicode_len();
    let nb = b.unicode_len();
    let mut i: usize = 0;
    proof {
        assert(a@.skip(0) =~= a@);
        assert(b@.skip(0) =~= b@);
    }
    while i < na && i < nb
        invariant
            na == a@.len(),
            nb == b@.len(),
            i <= na,
            i <= nb,
            str_lt(a@, b@) == str_lt(a@.skip(i as int), b@.skip(i as int)),
        decreases na - i,
    {
        let ca = a.get_char(i);
        let cb = b.get_char(i);
        proof {
            assert(a@.skip(i as int)[0] == a@[i as int]);
            assert(b@.skip(i as int)[0] == b@[i as int]);
            assert(a@.skip(i as int).drop_first() =~= a@.skip(i + 1));
            assert(b@.skip(i as int).drop_first() =~= b@.skip(i + 1));
        }
        if (ca as u32) < (cb as u32) {
            return true;
        }
        if ca != cb {
            return false;
        }
        i += 1;
    }
    proof {
        if i >= nb {
            assert(b@.skip(i as int).len() == 0);
        } else {
            assert(a@.skip(i as int).len() == 0);
            assert(b@.skip(i as int).len() > 0);
        }
    }
    i < nb
}

fn val_after_exec(a: &Value, b: &Value, reverse: bool) -> (r: bool)
    ensures
        r == val_after(a@, b@, reverse),
{
    match (a, b) {
        (Value::Int32(x), Value::Int32(y)) => {
            if reverse {
                *x < *y
            } else {
                *x > *y
            }
        },
        (Value::Int32(x), Value::Int64(y)) => {
            if reverse {
                (*x as i64) < *y
            } else {
                (*x as i64) > *y
            }
        },
        (Value::Int64(x), Value::Int32(y)) => {
            if reverse {
                *x < (*y as i64)
            } else {
                *x > (*y as i64)
            }
        },
        (Value::Int64(x), Value::Int64(y)) => {
            if reverse {
                *x < *y
            } else {
                *x > *y
            }
        },
        (Value::Bool(x), Value::Bool(y)) => {
            if reverse {
                !*x && *y
            } else {
                *x && !*y
            }
        },
        (Value::Str(x), Value::Str(y)) => {
            if reverse {
                str_lt_exec(x.as_str(), y.as_str())
            } else {
                str_lt_exec(y.as_str(), x.as_str())
            }
        },
        _ => false,
    }
}

fn cell_after_exec(a: &Option<Value>, b: &Option<Value>, reverse: bool) -> (r: bool)
    ensures
        r == cell_after(opt_view(*a), opt_view(*b), reverse),
{
    match (a, b) {
        (None, Some(_)) => true,
        (Some(_), None) => false,
        (None, None) => false,
        (Some(x), Some(y)) => val_after_exec(x, y, reverse),
    }
}

pub open spec fn usize_ints(s: Seq<usize>) -> Seq<int> {
    s.map_values(|u: usize| u as int)
}

/// Sorts a table by one column, stably, nulls last, as `sort_step`
/// says.
fn exec_sort(df: &DataFrame, by: &String, reverse: bool) -> (r: Result<DataFrame, PolarsError>)
    requires
        df.wf(),
    ensures
        match r {
            Ok(out) => out.wf() && sort_step(df@, by@, reverse) == Ok::<Seq<ColV>, PolarsError>(
                out@,
            ),
            Err(er) => sort_step(df@, by@, reverse) == Err::<Seq<ColV>, PolarsError>(er),
        },
{
    let cidx = match df.find_col(by) {
        Some(c) => c,
        None => {
            return Err(PolarsError::UnknownColumn);
        },
    };
    proof {
        crate::frame::lemma_df_find(df@, by@);
    }
    let cells = df.columns[cidx].ca.to_opt_vec();
    let ghost cv = df@[cidx as int].cells;
    let n = cells.len();
    proof {
        assert(cells@.map_values(|c: Option<Value>| opt_view(c)) == cv);
        assert(n == df_height(df@));
    }
    let mut perm: Vec<usize> = Vec::new();
    let mut i: usize = 0;
    while i < n
        invariant
            df.wf(),
            n == cells@.len(),
            cells@.map_values(|c: Option<Value>| opt_view(c)) == cv,
            n == cv.len(),
            i <= n,
            forall|k: int| 0 <= k < perm@.len() ==> (#[trigger] perm@[k]) < n,
            usize_ints(perm@) == sort_perm(cv, reverse, i as int),
        decreases n - i,
    {
        let ghost sorted = usize_ints(perm@);
        let mut j: usize = perm.len();
        proof {
            assert(sorted.take(j as int) =~= sorted);
            assert(sorted.skip(j as int) =~= Seq::<int>::empty());
            assert(insert_idx(sorted, i as int, cv, reverse) == insert_idx(
                sorted.take(j as int),
                i as int,
                cv,
                reverse,
            ) + sorted.skip(j as int));
        }
        while j > 0 && cell_after_exec(&cells[perm[j - 1]], &cells[i], reverse)
            invariant
                n == cells@.len(),
                cells@.map_values(|c: Option<Value>| opt_view(c)) == cv,
                n == cv.len(),
                i < n,
                j <= perm@.len(),
                sorted == usize_ints(perm@),
                forall|k: int| 0 <= k < perm@.len() ==> (#[trigger] perm@[k]) < n,
                insert_idx(sorted, i as int, cv, reverse) == insert_idx(
                    sorted.take(j as int),
                    i as int,
                    cv,
                    reverse,
                ) + sorted.skip(j as int),
            decreases j,
        {
            proof {
                assert(sorted.take(j as int).last() == sorted[j - 1]);
                assert(sorted.take(j as int).drop_last() =~= sorted.take(j - 1));
                assert(opt_view(cells@[perm@[j - 1] as int]) == cv[sorted[j - 1]]);
                assert(opt_view(cells@[i as int]) == cv[i as int]);
                assert(seq![sorted[j - 1]] + sorted.skip(j as int) =~= sorted.skip(j - 1));
                assert(insert_idx(sorted.take(j - 1), i as int, cv, reverse) + (seq![sorted[j - 1]] + sorted.skip(j as int)) =~= (insert_idx(sorted.take(j - 1), i as int, cv, reverse)
                    + seq![sorted[j - 1]]) + sorted.skip(j as int));
            }
            j -= 1;
        }
        proof {
            if j > 0 {
                assert(sorted.take(j as int).last() == sorted[j - 1]);
                assert(!cell_after(cv[sorted[j - 1]], cv[i as int], reverse));
                assert(insert_idx(sorted.take(j as int), i as int, cv, reverse) == sorted.take(
                    j as int,
                ) + seq![i as int]);
            } else {
                assert(sorted.take(0) =~= Seq::<int>::empty());
            }
        }
        perm.insert(j, i);
        proof {
            assert(perm@ =~= perm@.take(j as int) + seq![i] + old_perm_tail(sorted, j as int));
            assert(usize_ints(perm@) =~= sorted.take(j as int) + seq![i as int] + sorted.skip(
                j as int,
            ));
            assert(usize_ints(perm@) =~= insert_idx(sorted, i as int, cv, reverse));
        }
        i += 1;
    }
    proof {
        assert(usize_ints(perm@) == sort_perm(cv, reverse, n as int));
    }
    let mut keep: Vec<Option<usize>> = Vec::new();
    let mut k: usize = 0;
    let m = perm.len();
    while k < m
        invariant
            m == perm@.len(),
            k <= m,
            keep@.len() == k,
            forall|t: int| 0 <= t < perm@.len() ==> (#[trigger] perm@[t]) < n,
            n == cv.len(),
            forall|t: int|
                0 <= t < k ==> #[trigger] keep@[t] == Some(perm@[t]) && perm@[t] < n,
        decreases m - k,
    {
        keep.push(Some(perm[k]));
        k += 1;
    }
    proof {
        assert(n == df_height(df@));
        assert(crate::frame::idxs_view(keep@) =~= opt_idxs(usize_ints(perm@)));
    }
    let out = df.take_opt(&keep);
    Ok(out)
}

/// Ghost helper naming the tail a `Vec::insert` leaves in place.
pub open spec fn old_perm_tail(sorted: Seq<int>, j: int) -> Seq<usize> {
    Seq::new((sorted.len() - j) as nat, |t: int| sorted[j + t] as usize)
}


fn key_match_exec(a: &Option<Value>, b: &Option<Value>) -> (r: bool)
    ensures
        r == key_match(opt_view(*a), opt_view(*b)),
{
    match (a, b) {
        (Some(x), Some(y)) => x.eq_value(y),
        _ => false,
    }
}

/// Bounds of every join pair: a present left index is a left row, a
/// present right index a right row.
proof fn lemma_join_pairs_bounds(
    lk: Seq<Option<ValueV>>,
    rk: Seq<Option<ValueV>>,
    how: crate::plan::JoinKind,
)
    ensures
        forall|k: int|
            0 <= k < join_pairs(lk, rk, how).len() ==> match #[trigger] join_pairs(lk, rk, how)[k] {
                (oi, oj) => (match oi {
                    Some(i) => 0 <= i < lk.len(),
                    None => true,
                }) && (match oj {
                    Some(j) => 0 <= j < rk.len(),
                    None => true,
                }),
            },
{
    lemma_join_left_rows_bounds(lk, rk, how, lk.len() as int);
    lemma_join_extra_rows_bounds(lk, rk, rk.len() as int);
}

proof fn lemma_join_left_rows_bounds(
    lk: Seq<Option<ValueV>>,
    rk: Seq<Option<ValueV>>,
    how: crate::plan::JoinKind,
    n: int,
)
    requires
        0 <= n <= lk.len(),
    ensures
        forall|k: int|
            0 <= k < join_left_rows(lk, rk, how, n).len() ==> match #[trigger] join_left_rows(
                lk,
                rk,
                how,
                n,
            )[k] {
                (oi, oj) => (match oi {
                    Some(i) => 0 <= i < lk.len(),
                    None => true,
                }) && (match oj {
                    Some(j) => 0 <= j < rk.len(),
                    None => true,
                }),
            },
    decreases n,
{
    if n > 0 {
        lemma_join_left_rows_bounds(lk, rk, how, n - 1);
        lemma_row_matches_are_matches(lk[n - 1], rk, rk.len() as int);
        let prev = join_left_rows(lk, rk, how, n - 1);
        let cur = join_left_rows(lk, rk, how, n);
        let ms = row_matches(lk[n - 1], rk, rk.len() as int);
        assert forall|k: int| 0 <= k < cur.len() implies match #[trigger] cur[k] {
            (oi, oj) => (match oi {
                Some(i) => 0 <= i < lk.len(),
                None => true,
            }) && (match oj {
                Some(j) => 0 <= j < rk.len(),
                None => true,
            }),
        } by {
            if k < prev.len() {
                assert(cur[k] == prev[k]);
            } else if ms.len() > 0 {
                let t = k - prev.len();
                assert(cur[k] == ms.map_values(|j: int| (Some(n - 1), Some(j)))[t]);
                assert(cur[k] == (Some(n - 1), Some(ms[t])));
            }
        }
    }
}

proof fn lemma_join_extra_rows_bounds(lk: Seq<Option<ValueV>>, rk: Seq<Option<ValueV>>, m: int)
    requires
        0 <= m <= rk.len(),
    ensures
        forall|k: int|
            0 <= k < join_extra_rows(lk, rk, m).len() ==> match #[trigger] join_extra_rows(
                lk,
                rk,
                m,
            )[k] {
                (oi, oj) => oi is None && (match oj {
                    Some(j) => 0 <= j < rk.len(),
                    None => false,
                }),
            },
    decreases m,
{
    if m > 0 {
        lemma_join_extra_rows_bounds(lk, rk, m - 1);
        let prev = join_extra_rows(lk, rk, m - 1);
        let cur = join_extra_rows(lk, rk, m);
        assert forall|k: int| 0 <= k < cur.len() implies match #[trigger] cur[k] {
            (oi, oj) => oi is None && (match oj {
                Some(j) => 0 <= j < rk.len(),
                None => false,
            }),
        } by {
            if k < prev.len() {
                assert(cur[k] == prev[k]);
            }
        }
    }
}

/// Joins two tables on one evaluated key per side, as `join_step` says.
#[verifier::rlimit(100)]
fn exec_join(
    ldf: &DataFrame,
    rdf: &DataFrame,
    how: crate::plan::JoinKind,
    left_on: &crate::expr::Expr,
    right_on: &crate::expr::Expr,
) -> (r: Result<DataFrame, PolarsError>)
    requires
        ldf.wf(),
        rdf.wf(),
    ensures
        match r {
            Ok(out) => out.wf() && join_step(ldf@, rdf@, how, left_on@, right_on@) == Ok::<
                Seq<ColV>,
                PolarsError,
            >(out@),
            Err(er) => join_step(ldf@, rdf@, how, left_on@, right_on@) == Err::<
                Seq<ColV>,
                PolarsError,
            >(er),
        },
{
    let lks = match crate::expr::eval_expr(left_on, ldf) {
        Ok(srs) => srs,
        Err(er) => {
            return Err(er);
        },
    };
    let rks = match crate::expr::eval_expr(right_on, rdf) {
        Ok(srs) => srs,
        Err(er) => {
            return Err(er);
        },
    };
    if lks.dtype != rks.dtype {
        return Err(PolarsError::JoinKeyTypeMismatch);
    }
    proof {
        crate::expr::lemma_eval_len(left_on@, ldf@);
        crate::expr::lemma_eval_len(right_on@, rdf@);
    }
    let lk = lks.ca.to_opt_vec();
    let rk = rks.ca.to_opt_vec();
    let ghost lkc = lks.view_col().cells;
    let ghost rkc = rks.view_col().cells;
    let nl = lk.len();
    let nr = rk.len();
    let mut lidx: Vec<Option<usize>> = Vec::new();
    let mut ridx: Vec<Option<usize>> = Vec::new();
    let mut i: usize = 0;
    while i < nl
        invariant
            nl == lk@.len(),
            nr == rk@.len(),
            lk@.map_values(|c: Option<Value>| opt_view(c)) == lkc,
            rk@.map_values(|c: Option<Value>| opt_view(c)) == rkc,
            nl == lkc.len(),
            nr == rkc.len(),
            i <= nl,
            lidx@.len() == ridx@.len(),
            lidx@.len() == join_left_rows(lkc, rkc, how, i as int).len(),
            forall|k: int|
                0 <= k < lidx@.len() ==> #[trigger] crate::frame::idxs_view(lidx@)[k]
                    == join_left_rows(lkc, rkc, how, i as int)[k].0,
            forall|k: int|
                0 <= k < ridx@.len() ==> #[trigger] crate::frame::idxs_view(ridx@)[k]
                    == join_left_rows(lkc, rkc, how, i as int)[k].1,
        decreases nl - i,
    {
        let ghost base = join_left_rows(lkc, rkc, how, i as int);
        let ghost baselen = lidx@.len() as int;
        let mut cnt: usize = 0;
        let mut j: usize = 0;
        while j < nr
            invariant
                nl == lk@.len(),
                nr == rk@.len(),
                lk@.map_values(|c: Option<Value>| opt_view(c)) == lkc,
                rk@.map_values(|c: Option<Value>| opt_view(c)) == rkc,
                nl == lkc.len(),
                nr == rkc.len(),
                i < nl,
                j <= nr,
                base == join_left_rows(lkc, rkc, how, i as int),
                baselen == base.len(),
                lidx@.len() == ridx@.len(),
                cnt == row_matches(lkc[i as int], rkc, j as int).len(),
                lidx@.len() == baselen + cnt,
                forall|k: int|
                    0 <= k < baselen ==> #[trigger] crate::frame::idxs_view(lidx@)[k] == base[k].0,
                forall|k: int|
                    0 <= k < baselen ==> #[trigger] crate::frame::idxs_view(ridx@)[k] == base[k].1,
                forall|k: int|
                    0 <= k < cnt ==> #[trigger] crate::frame::idxs_view(lidx@)[baselen + k]
                        == Some(i as int),
                forall|k: int|
                    0 <= k < cnt ==> #[trigger] crate::frame::idxs_view(ridx@)[baselen + k]
                        == Some(row_matches(lkc[i as int], rkc, j as int)[k]),
            decreases nr - j,
        {
            proof {
                assert(opt_view(lk@[i as int]) == lkc[i as int]);
                assert(opt_view(rk@[j as int]) == rkc[j as int]);
                lemma_row_matches_len(lkc[i as int], rkc, j as int);
            }
            let ghost prevl = lidx@;
            let ghost prevr = ridx@;
            if key_match_exec(&lk[i], &rk[j]) {
                lidx.push(Some(i));
                ridx.push(Some(j));
                proof {
                    assert forall|k: int| 0 <= k < prevl.len() implies
                        #[trigger] crate::frame::idxs_view(lidx@)[k] == crate::frame::idxs_view(
                        prevl,
                    )[k] by {
                        assert(lidx@[k] == prevl[k]);
                    }
                    assert forall|k: int| 0 <= k < prevr.len() implies
                        #[trigger] crate::frame::idxs_view(ridx@)[k] == crate::frame::idxs_view(
                        prevr,
                    )[k] by {
                        assert(ridx@[k] == prevr[k]);
                    }
                    assert(row_matches(lkc[i as int], rkc, j + 1) =~= row_matches(
                        lkc[i as int],
                        rkc,
                        j as int,
                    ) + seq![j as int]);
                    assert(crate::frame::idxs_view(lidx@)[prevl.len() as int] == Some(i as int));
                    assert(crate::frame::idxs_view(ridx@)[prevr.len() as int] == Some(j as int));
                    assert(row_matches(lkc[i as int], rkc, j + 1)[cnt as int] == j as int);
                    assert forall|k: int| 0 <= k < cnt implies #[trigger] row_matches(
                        lkc[i as int],
                        rkc,
                        j + 1,
                    )[k] == row_matches(lkc[i as int], rkc, j as int)[k] by {}
                }
                cnt += 1;
            } else {
                proof {
                    assert(row_matches(lkc[i as int], rkc, j + 1) =~= row_matches(
                        lkc[i as int],
                        rkc,
                        j as int,
                    ));
                }
            }
            j += 1;
        }
        let ghost ms = row_matches(lkc[i as int], rkc, nr as int);
        proof {
            lemma_row_matches_len(lkc[i as int], rkc, nr as int);
        }
        if cnt == 0 && how != crate::plan::JoinKind::Inner {
            let ghost prevl = lidx@;
            let ghost prevr = ridx@;
            lidx.push(Some(i));
            ridx.push(None);
            proof {
                assert forall|k: int| 0 <= k < prevl.len() implies
                    #[trigger] crate::frame::idxs_view(lidx@)[k] == crate::frame::idxs_view(
                    prevl,
                )[k] by {
                    assert(lidx@[k] == prevl[k]);
                }
                assert forall|k: int| 0 <= k < prevr.len() implies
                    #[trigger] crate::frame::idxs_view(ridx@)[k] == crate::frame::idxs_view(
                    prevr,
                )[k] by {
                    assert(ridx@[k] == prevr[k]);
                }
                assert(join_left_rows(lkc, rkc, how, i + 1) =~= base + seq![
                    (Some(i as int), None::<int>),
                ]);
                assert(crate::frame::idxs_view(lidx@)[prevl.len() as int] == Some(i as int));
                assert(crate::frame::idxs_view(ridx@)[prevr.len() as int] == None::<int>);
            }
        } else {
            proof {
                if cnt == 0 {
                    assert(join_left_rows(lkc, rkc, how, i + 1) =~= base);
                } else {
                    assert(row_matches(lkc[i as int], rkc, j as int) == ms);
                    assert(join_left_rows(lkc, rkc, how, i + 1) == base + ms.map_values(
                        |t: int| (Some(i as int), Some(t)),
                    ));
                    assert forall|k: int| 0 <= k < lidx@.len() implies
                        #[trigger] crate::frame::idxs_view(lidx@)[k] == join_left_rows(
                        lkc,
                        rkc,
                        how,
                        i + 1,
                    )[k].0 by {
                        if k >= baselen {
                            assert(crate::frame::idxs_view(lidx@)[baselen + (k - baselen)]
                                == Some(i as int));
                            assert(join_left_rows(lkc, rkc, how, i + 1)[k] == ms.map_values(
                                |t: int| (Some(i as int), Some(t)),
                            )[k - baselen]);
                        }
                    }
                    assert forall|k: int| 0 <= k < ridx@.len() implies
                        #[trigger] crate::frame::idxs_view(ridx@)[k] == join_left_rows(
                        lkc,
                        rkc,
                        how,
                        i + 1,
                    )[k].1 by {
                        if k >= baselen {
                            assert(crate::frame::idxs_view(ridx@)[baselen + (k - baselen)]
                                == Some(ms[k - baselen]));
                            assert(join_left_rows(lkc, rkc, how, i + 1)[k] == ms.map_values(
                                |t: int| (Some(i as int), Some(t)),
                            )[k - baselen]);
                        }
                    }
                }
            }
        }
        i += 1;
    }
    if how == crate::plan::JoinKind::Outer {
        let ghost leftlen = lidx@.len() as int;
        let mut j: usize = 0;
        while j < nr
            invariant
                nl == lk@.len(),
                nr == rk@.len(),
                lk@.map_values(|c: Option<Value>| opt_view(c)) == lkc,
                rk@.map_values(|c: Option<Value>| opt_view(c)) == rkc,
                nl == lkc.len(),
                nr == rkc.len(),
                how == crate::plan::JoinKind::Outer,
                j <= nr,
                leftlen == join_left_rows(lkc, rkc, how, nl as int).len(),
                lidx@.len() == ridx@.len(),
                lidx@.len() == leftlen + join_extra_rows(lkc, rkc, j as int).len(),
                forall|k: int|
                    0 <= k < leftlen ==> #[trigger] crate::frame::idxs_view(lidx@)[k]
                        == join_left_rows(lkc, rkc, how, nl as int)[k].0,
                forall|k: int|
                    0 <= k < leftlen ==> #[trigger] crate::frame::idxs_view(ridx@)[k]
                        == join_left_rows(lkc, rkc, how, nl as int)[k].1,
                forall|k: int|
                    0 <= k < join_extra_rows(lkc, rkc, j as int).len()
                        ==> #[trigger] crate::frame::idxs_view(lidx@)[leftlen + k]
                        == join_extra_rows(lkc, rkc, j as int)[k].0,
                forall|k: int|
                    0 <= k < join_extra_rows(lkc, rkc, j as int).len()
                        ==> #[trigger] crate::frame::idxs_view(ridx@)[leftlen + k]
                        == join_extra_rows(lkc, rkc, j as int)[k].1,
            decreases nr - j,
        {
            let mut any = false;
            let mut t: usize = 0;
            while t < nl
                invariant
                    nl == lk@.len(),
                    nr == rk@.len(),
                    lk@.map_values(|c: Option<Value>| opt_view(c)) == lkc,
                    rk@.map_values(|c: Option<Value>| opt_view(c)) == rkc,
                    nl == lkc.len(),
                    j < nr,
                    t <= nl,
                    any ==> right_matched(lkc, rkc[j as int]),
                    !any ==> forall|w: int|
                        0 <= w < t ==> !key_match(#[trigger] lkc[w], rkc[j as int]),
                decreases nl - t + (if any {
                    0int
                } else {
                    1int
                }),
            {
                proof {
                    assert(opt_view(lk@[t as int]) == lkc[t as int]);
                    assert(opt_view(rk@[j as int]) == rkc[j as int]);
                }
                if key_match_exec(&lk[t], &rk[j]) {
                    any = true;
                    t = nl;
                } else {
                    t += 1;
                }
            }
            proof {
                assert(any == right_matched(lkc, rkc[j as int]));
            }
            let ghost prevl = lidx@;
            let ghost prevr = ridx@;
            if !any {
                lidx.push(None);
                ridx.push(Some(j));
                proof {
                    assert forall|k: int| 0 <= k < prevl.len() implies
                        #[trigger] crate::frame::idxs_view(lidx@)[k] == crate::frame::idxs_view(
                        prevl,
                    )[k] by {
                        assert(lidx@[k] == prevl[k]);
                    }
                    assert forall|k: int| 0 <= k < prevr.len() implies
                        #[trigger] crate::frame::idxs_view(ridx@)[k] == crate::frame::idxs_view(
                        prevr,
                    )[k] by {
                        assert(ridx@[k] == prevr[k]);
                    }
                    assert(join_extra_rows(lkc, rkc, j + 1) =~= join_extra_rows(
                        lkc,
                        rkc,
                        j as int,
                    ) + seq![(None::<int>, Some(j as int))]);
                    assert(crate::frame::idxs_view(lidx@)[prevl.len() as int] == None::<int>);
                    assert(crate::frame::idxs_view(ridx@)[prevr.len() as int] == Some(j as int));
                }
            } else {
                proof {
                    assert(join_extra_rows(lkc, rkc, j + 1) =~= join_extra_rows(
                        lkc,
                        rkc,
                        j as int,
                    ));
                }
            }
            j += 1;
        }
    }
    let ghost pairs = join_pairs(lkc, rkc, how);
    proof {
        if how == crate::plan::JoinKind::Outer {
            assert(pairs =~= join_left_rows(lkc, rkc, how, nl as int) + join_extra_rows(
                lkc,
                rkc,
                nr as int,
            ));
        } else {
            assert(pairs =~= join_left_rows(lkc, rkc, how, nl as int));
        }
        assert(lidx@.len() == pairs.len());
        assert forall|k: int| 0 <= k < lidx@.len() implies #[trigger] crate::frame::idxs_view(
            lidx@,
        )[k] == pairs[k].0 by {
            if how == crate::plan::JoinKind::Outer {
                let ll = join_left_rows(lkc, rkc, how, nl as int).len() as int;
                if k >= ll {
                    assert(crate::frame::idxs_view(lidx@)[ll + (k - ll)] == join_extra_rows(
                        lkc,
                        rkc,
                        nr as int,
                    )[k - ll].0);
                }
            }
        }
        assert forall|k: int| 0 <= k < ridx@.len() implies #[trigger] crate::frame::idxs_view(
            ridx@,
        )[k] == pairs[k].1 by {
            if how == crate::plan::JoinKind::Outer {
                let ll = join_left_rows(lkc, rkc, how, nl as int).len() as int;
                if k >= ll {
                    assert(crate::frame::idxs_view(ridx@)[ll + (k - ll)] == join_extra_rows(
                        lkc,
                        rkc,
                        nr as int,
                    )[k - ll].1);
                }
            }
        }
        assert(crate::frame::idxs_view(lidx@) =~= pairs.map_values(
            |pr: (Option<int>, Option<int>)| pr.0,
        ));
        assert(crate::frame::idxs_view(ridx@) =~= pairs.map_values(
            |pr: (Option<int>, Option<int>)| pr.1,
        ));
        lemma_join_pairs_bounds(lkc, rkc, how);
        assert forall|k: int| 0 <= k < lidx@.len() implies match #[trigger] lidx@[k] {
            Some(v) => v < df_height(ldf@),
            None => true,
        } by {
            assert(crate::frame::idxs_view(lidx@)[k] == pairs[k].0);
        }
        assert forall|k: int| 0 <= k < ridx@.len() implies match #[trigger] ridx@[k] {
            Some(v) => v < df_height(rdf@),
            None => true,
        } by {
            assert(crate::frame::idxs_view(ridx@)[k] == pairs[k].1);
        }
    }
    let lout = ldf.take_opt(&lidx);
    let rout = rdf.take_opt(&ridx);
    let ghost loutv = lout@;
    let mut merged: Vec<Series> = lout.columns;
    let ghost lv = crate::frame::cols_view(merged@);
    proof {
        assert(lv == loutv);
    }
    let nrc = rout.columns.len();
    let mut c: usize = 0;
    while c < nrc
        invariant
            nrc == rout.columns@.len(),
            forall|k: int| 0 <= k < rout.columns@.len() ==> (#[trigger] rout.columns@[k]).wf(),
            c <= nrc,
            merged@.len() == lv.len() + c,
            forall|k: int| 0 <= k < merged@.len() ==> (#[trigger] merged@[k]).wf(),
            forall|k: int|
                0 <= k < lv.len() ==> #[trigger] crate::frame::cols_view(merged@)[k] == lv[k],
            forall|k: int|
                0 <= k < c ==> #[trigger] crate::frame::cols_view(merged@)[lv.len() + k]
                    == rename_right_cols(ldf@, rout@)[k],
        decreases nrc - c,
    {
        let mut name = rout.columns[c].ca.get_name().clone();
        match ldf.find_col(&name) {
            Some(_) => {
                name.append("_right");
            },
            None => {
                proof {
                    crate::frame::lemma_df_find(ldf@, rout@[c as int].name);
                }
            },
        }
        let cells = rout.columns[c].ca.to_opt_vec();
        let srs = Series::new_opt(name.as_str(), rout.columns[c].dtype, &cells);
        let ghost prev = merged@;
        proof {
            assert(srs.view_col().cells =~= rout@[c as int].cells);
        }
        merged.push(srs);
        proof {
            assert forall|k: int| 0 <= k < prev.len() implies #[trigger] crate::frame::cols_view(
                merged@,
            )[k] == crate::frame::cols_view(prev)[k] by {
                assert(merged@[k] == prev[k]);
            }
            assert(crate::frame::cols_view(merged@)[prev.len() as int] =~= rename_right_cols(
                ldf@,
                rout@,
            )[c as int]);
        }
        c += 1;
    }
    let ghost outv = crate::frame::cols_view(merged@);
    proof {
        assert forall|k: int| 0 <= k < outv.len() implies #[trigger] outv[k] == (loutv
            + rename_right_cols(ldf@, rout@))[k] by {
            if k >= lv.len() {
                assert(crate::frame::cols_view(merged@)[lv.len() + (k - lv.len())]
                    == rename_right_cols(ldf@, rout@)[k - lv.len()]);
            }
        }
        assert(outv =~= loutv + rename_right_cols(ldf@, rout@));
    }
    if !cols_unique_check(&merged) {
        return Err(PolarsError::DuplicateColumn);
    }
    let res = DataFrame { columns: merged };
    proof {
        assert forall|k: int| 0 <= k < outv.len() implies (#[trigger] outv[k].cells).len()
            == crate::frame::df_height(outv) by {
            assert(outv[k].cells.len() == pairs.len());
            if outv.len() > 0 {
                assert(outv[0].cells.len() == pairs.len());
            }
        }
        assert(crate::frame::df_wf_v(res@));
    }
    Ok(res)
}


fn agg_parts_exec(e: &crate::expr::Expr) -> (r: Option<(String, AggKind, crate::expr::Expr)>)
    ensures
        match r {
            Some(p) => agg_parts(e@) == Some((p.0@, p.1, p.2@)),
            None => agg_parts(e@) is None,
        },
    decreases *e,
{
    match e {
        crate::expr::Expr::Agg { kind, expr } => Some(
            (crate::optimizer::expr_output_name(expr), *kind, expr.dup()),
        ),
        crate::expr::Expr::Alias { expr, name } => match agg_parts_exec(expr) {
            Some(p) => Some((name.clone(), p.1, p.2)),
            None => None,
        },
        _ => None,
    }
}

fn agg_cell_exec(kind: AggKind, cells: &Vec<Option<Value>>) -> (r: Result<
    Option<Value>,
    PolarsError,
>)
    ensures
        match r {
            Ok(c) => agg_cell(kind, cells@.map_values(|x: Option<Value>| opt_view(x))) == Ok::<
                Option<ValueV>,
                PolarsError,
            >(opt_view(c)),
            Err(er) => agg_cell(kind, cells@.map_values(|x: Option<Value>| opt_view(x))) == Err::<
                Option<ValueV>,
                PolarsError,
            >(er),
        },
{
    let ghost cv = cells@.map_values(|x: Option<Value>| opt_view(x));
    let n = cells.len();
    match kind {
        AggKind::Count => {
            let mut acc: i64 = 0;
            let mut i: usize = 0;
            proof {
                assert(cv.take(0) =~= Seq::<Option<ValueV>>::empty());
            }
            while i < n
                invariant
                    n == cells@.len(),
                    cv == cells@.map_values(|x: Option<Value>| opt_view(x)),
                    i <= n,
                    acc as int == count_wrap(cv.take(i as int)),
                decreases n - i,
            {
                proof {
                    assert(cv.take(i + 1).drop_last() =~= cv.take(i as int));
                    assert(cv.take(i + 1).last() == cv[i as int]);
                    assert(opt_view(cells@[i as int]) == cv[i as int]);
                }
                match &cells[i] {
                    Some(_) => {
                        acc = acc.wrapping_add(1);
                    },
                    None => {},
                }
                i += 1;
            }
            proof {
                assert(cv.take(n as int) =~= cv);
            }
            Ok(Some(Value::Int64(acc)))
        },
        AggKind::Sum => {
            let mut i: usize = 0;
            while i < n
                invariant
                    kind == AggKind::Sum,
                    n == cells@.len(),
                    cv == cells@.map_values(|x: Option<Value>| opt_view(x)),
                    i <= n,
                    forall|k: int|
                        0 <= k < i ==> match #[trigger] cv[k] {
                            Some(v) => num_of(v) is Some,
                            None => true,
                        },
                decreases n - i,
            {
                proof {
                    assert(opt_view(cells@[i as int]) == cv[i as int]);
                }
                match &cells[i] {
                    Some(Value::Bool(_)) => {
                        proof {
                            assert(!sum_ok(cv));
                            assert(agg_cell(kind, cv) == Err::<Option<ValueV>, PolarsError>(
                                PolarsError::TypeMismatch,
                            ));
                        }
                        return Err(PolarsError::TypeMismatch);
                    },
                    Some(Value::Str(_)) => {
                        proof {
                            assert(!sum_ok(cv));
                            assert(agg_cell(kind, cv) == Err::<Option<ValueV>, PolarsError>(
                                PolarsError::TypeMismatch,
                            ));
                        }
                        return Err(PolarsError::TypeMismatch);
                    },
                    _ => {},
                }
                i += 1;
            }
            proof {
                assert(sum_ok(cv));
            }
            let mut acc: i64 = 0;
            let mut i2: usize = 0;
            proof {
                assert(cv.take(0) =~= Seq::<Option<ValueV>>::empty());
            }
            while i2 < n
                invariant
                    n == cells@.len(),
                    cv == cells@.map_values(|x: Option<Value>| opt_view(x)),
                    sum_ok(cv),
                    i2 <= n,
                    acc as int == sum_wrap(cv.take(i2 as int)),
                decreases n - i2,
            {
                proof {
                    assert(cv.take(i2 + 1).drop_last() =~= cv.take(i2 as int));
                    assert(cv.take(i2 + 1).last() == cv[i2 as int]);
                    assert(opt_view(cells@[i2 as int]) == cv[i2 as int]);
                }
                match &cells[i2] {
                    Some(Value::Int32(v)) => {
                        acc = acc.wrapping_add(*v as i64);
                    },
                    Some(Value::Int64(v)) => {
                        acc = acc.wrapping_add(*v);
                    },
                    _ => {},
                }
                i2 += 1;
            }
            proof {
                assert(cv.take(n as int) =~= cv);
            }
            Ok(Some(Value::Int64(acc)))
        },
    }
}

/// Decides whether two rows carry the same key tuple.
fn rows_eq(
    kcols: &Vec<Vec<Option<Value>>>,
    a: usize,
    b: usize,
    Ghost(df): Ghost<Seq<ColV>>,
    Ghost(kidx): Ghost<Seq<int>>,
) -> (r: bool)
    requires
        kcols@.len() == kidx.len(),
        forall|c: int|
            0 <= c < kidx.len() ==> 0 <= #[trigger] kidx[c] < df.len() && kcols@[c]@.map_values(
                |x: Option<Value>| opt_view(x),
            ) == df[kidx[c]].cells,
        forall|c: int|
            0 <= c < kidx.len() ==> a < (#[trigger] df[kidx[c]].cells).len() && b < df[kidx[c]].cells.len(),
    ensures
        r == tuple_eq(key_tuple(df, kidx, a as int), key_tuple(df, kidx, b as int)),
{
    let m = kcols.len();
    let mut c: usize = 0;
    while c < m
        invariant
            m == kcols@.len(),
            m == kidx.len(),
            forall|t: int|
                0 <= t < kidx.len() ==> 0 <= #[trigger] kidx[t] < df.len() && kcols@[t]@.map_values(
                    |x: Option<Value>| opt_view(x),
                ) == df[kidx[t]].cells,
            forall|t: int|
                0 <= t < kidx.len() ==> a < (#[trigger] df[kidx[t]].cells).len() && b < df[kidx[t]].cells.len(),
            c <= m,
            forall|t: int|
                0 <= t < c ==> cell_eq(
                    #[trigger] key_tuple(df, kidx, a as int)[t],
                    key_tuple(df, kidx, b as int)[t],
                ),
        decreases m - c,
    {
        proof {
            assert(opt_view(kcols@[c as int]@[a as int]) == df[kidx[c as int]].cells[a as int]);
            assert(opt_view(kcols@[c as int]@[b as int]) == df[kidx[c as int]].cells[b as int]);
            assert(key_tuple(df, kidx, a as int)[c as int] == df[kidx[c as int]].cells[a as int]);
            assert(key_tuple(df, kidx, b as int)[c as int] == df[kidx[c as int]].cells[b as int]);
        }
        if !cell_eq_exec(&kcols[c][a], &kcols[c][b]) {
            return false;
        }
        c += 1;
    }
    true
}

/// The group representatives of the first `n` rows, by direct scan.
fn compute_reps(
    kcols: &Vec<Vec<Option<Value>>>,
    n: usize,
    Ghost(df): Ghost<Seq<ColV>>,
    Ghost(kidxv): Ghost<Seq<int>>,
) -> (reps: Vec<usize>)
    requires
        crate::frame::df_wf_v(df),
        n == df_height(df),
        kcols@.len() == kidxv.len(),
        forall|t: int|
            0 <= t < kidxv.len() ==> 0 <= #[trigger] kidxv[t] < df.len() && kcols@[t]@.map_values(
                |x: Option<Value>| opt_view(x),
            ) == df[kidxv[t]].cells,
    ensures
        forall|t: int| 0 <= t < reps@.len() ==> (#[trigger] reps@[t]) < n,
        usize_ints(reps@) == group_reps(df, kidxv, n as int),
{
    let mut reps: Vec<usize> = Vec::new();
    let mut i: usize = 0;
    while i < n
        invariant
            crate::frame::df_wf_v(df),
            n == df_height(df),
            kcols@.len() == kidxv.len(),
            forall|t: int|
                0 <= t < kidxv.len() ==> 0 <= #[trigger] kidxv[t] < df.len()
                    && kcols@[t]@.map_values(|x: Option<Value>| opt_view(x)) == df[kidxv[t]].cells,
            i <= n,
            forall|t: int| 0 <= t < reps@.len() ==> (#[trigger] reps@[t]) < n,
            usize_ints(reps@) == group_reps(df, kidxv, i as int),
        decreases n - i,
    {
        let mut seen = false;
        let mut j: usize = 0;
        while j < i
            invariant
                crate::frame::df_wf_v(df),
                n == df_height(df),
                kcols@.len() == kidxv.len(),
                forall|t: int|
                    0 <= t < kidxv.len() ==> 0 <= #[trigger] kidxv[t] < df.len()
                        && kcols@[t]@.map_values(|x: Option<Value>| opt_view(x)) == df[kidxv[t]].cells,
                i < n,
                j <= i,
                seen ==> seen_before(df, kidxv, i as int, i as int),
                !seen ==> forall|w: int|
                    0 <= w < j ==> !tuple_eq(
                        #[trigger] key_tuple(df, kidxv, w),
                        key_tuple(df, kidxv, i as int),
                    ),
            decreases i - j + (if seen {
                0int
            } else {
                1int
            }),
        {
            if rows_eq(&kcols, j, i, Ghost(df), Ghost(kidxv)) {
                seen = true;
                j = i;
            } else {
                j += 1;
            }
        }
        proof {
            assert(seen == seen_before(df, kidxv, i as int, i as int));
        }
        let ghost prevr = reps@;
        if !seen {
            reps.push(i);
            proof {
                assert forall|k: int| 0 <= k < prevr.len() implies #[trigger] usize_ints(
                    reps@,
                )[k] == usize_ints(prevr)[k] by {
                    assert(reps@[k] == prevr[k]);
                }
                assert(usize_ints(reps@)[prevr.len() as int] == i as int);
                assert(usize_ints(reps@) =~= group_reps(df, kidxv, i + 1));
            }
        } else {
            proof {
                assert(group_reps(df, kidxv, i + 1) =~= group_reps(df, kidxv, i as int));
            }
        }
        i += 1;
    }
    reps
}

/// The member rows of one group, by direct scan.
fn compute_members(
    kcols: &Vec<Vec<Option<Value>>>,
    rep: usize,
    n: usize,
    Ghost(df): Ghost<Seq<ColV>>,
    Ghost(kidxv): Ghost<Seq<int>>,
) -> (members: Vec<Option<usize>>)
    requires
        crate::frame::df_wf_v(df),
        n == df_height(df),
        rep < n,
        kcols@.len() == kidxv.len(),
        forall|t: int|
            0 <= t < kidxv.len() ==> 0 <= #[trigger] kidxv[t] < df.len() && kcols@[t]@.map_values(
                |x: Option<Value>| opt_view(x),
            ) == df[kidxv[t]].cells,
    ensures
        forall|t: int|
            0 <= t < members@.len() ==> match #[trigger] members@[t] {
                Some(u) => u < n,
                None => false,
            },
        crate::frame::idxs_view(members@) == opt_idxs(group_members(df, kidxv, n as int, rep as int)),
{
    let mut members: Vec<Option<usize>> = Vec::new();
    let mut w: usize = 0;
    proof {
        assert(crate::frame::idxs_view(members@) =~= opt_idxs(group_members(
            df,
            kidxv,
            0,
            rep as int,
        )));
    }
    while w < n
        invariant
            crate::frame::df_wf_v(df),
            n == df_height(df),
            rep < n,
            kcols@.len() == kidxv.len(),
            forall|t: int|
                0 <= t < kidxv.len() ==> 0 <= #[trigger] kidxv[t] < df.len()
                    && kcols@[t]@.map_values(|x: Option<Value>| opt_view(x)) == df[kidxv[t]].cells,
            w <= n,
            forall|t: int|
                0 <= t < members@.len() ==> match #[trigger] members@[t] {
                    Some(u) => u < n,
                    None => false,
                },
            crate::frame::idxs_view(members@) == opt_idxs(group_members(
                df,
                kidxv,
                w as int,
                rep as int,
            )),
        decreases n - w,
    {
        let ghost prevm = members@;
        if rows_eq(&kcols, w, rep, Ghost(df), Ghost(kidxv)) {
            members.push(Some(w));
            proof {
                assert forall|k: int| 0 <= k < prevm.len() implies
                    #[trigger] crate::frame::idxs_view(members@)[k] == crate::frame::idxs_view(
                    prevm,
                )[k] by {
                    assert(members@[k] == prevm[k]);
                }
                assert(group_members(df, kidxv, w + 1, rep as int) =~= group_members(
                    df,
                    kidxv,
                    w as int,
                    rep as int,
                ) + seq![w as int]);
                assert(members@.len() == prevm.len() + 1);
                assert(members@[prevm.len() as int] == Some(w));
                assert(crate::frame::idxs_view(members@)[prevm.len() as int] == Some(w as int));
                assert(opt_idxs(group_members(df, kidxv, w as int, rep as int)).len()
                    == prevm.len());
                assert forall|k: int| 0 <= k < members@.len() implies
                    #[trigger] crate::frame::idxs_view(members@)[k] == opt_idxs(group_members(
                    df,
                    kidxv,
                    w + 1,
                    rep as int,
                ))[k] by {
                    if k < prevm.len() {
                        assert(crate::frame::idxs_view(members@)[k] == crate::frame::idxs_view(
                            prevm,
                        )[k]);
                        assert(crate::frame::idxs_view(prevm)[k] == opt_idxs(group_members(
                            df,
                            kidxv,
                            w as int,
                            rep as int,
                        ))[k]);
                        assert(group_members(df, kidxv, w + 1, rep as int)[k] == group_members(
                            df,
                            kidxv,
                            w as int,
                            rep as int,
                        )[k]);
                    } else {
                        assert(group_members(df, kidxv, w + 1, rep as int)[k] == w as int);
                    }
                }
                assert(crate::frame::idxs_view(members@) =~= opt_idxs(group_members(
                    df,
                    kidxv,
                    w + 1,
                    rep as int,
                )));
            }
        } else {
            proof {
                assert(group_members(df, kidxv, w + 1, rep as int) =~= group_members(
                    df,
                    kidxv,
                    w as int,
                    rep as int,
                ));
            }
        }
        w += 1;
    }
    members
}

/// One aggregated output column over the groups, as `agg_col_cells`
/// says.
fn compute_agg_col(
    df: &DataFrame,
    kcols: &Vec<Vec<Option<Value>>>,
    reps: &Vec<usize>,
    kind: AggKind,
    inner: &crate::expr::Expr,
    Ghost(kidxv): Ghost<Seq<int>>,
) -> (r: Result<Vec<Option<Value>>, PolarsError>)
    requires
        df.wf(),
        kcols@.len() == kidxv.len(),
        forall|t: int|
            0 <= t < kidxv.len() ==> 0 <= #[trigger] kidxv[t] < df@.len() && kcols@[t]@.map_values(
                |x: Option<Value>| opt_view(x),
            ) == df@[kidxv[t]].cells,
        forall|t: int| 0 <= t < reps@.len() ==> (#[trigger] reps@[t]) < df_height(df@),
    ensures
        match r {
            Ok(cells) => agg_col_cells(
                kind,
                inner@,
                df@,
                kidxv,
                usize_ints(reps@),
                df_height(df@),
            ) == Ok::<Seq<Option<ValueV>>, PolarsError>(
                cells@.map_values(|x: Option<Value>| opt_view(x)),
            ) && cells@.len() == reps@.len(),
            Err(er) => agg_col_cells(kind, inner@, df@, kidxv, usize_ints(reps@), df_height(df@))
                == Err::<Seq<Option<ValueV>>, PolarsError>(er),
        },
{
    let ghost repsv = usize_ints(reps@);
    let ghost n = df_height(df@);
    let ngroups = reps.len();
    let nn = df.height();
    let mut cells: Vec<Option<Value>> = Vec::new();
    let mut g2: usize = 0;
    proof {
        assert(repsv.skip(0) =~= repsv);
        match agg_col_cells(kind, inner@, df@, kidxv, repsv, n) {
            Ok(rest) => {
                assert(cells@.map_values(|x: Option<Value>| opt_view(x)) + rest =~= rest);
            },
            Err(_) => {},
        }
    }
    while g2 < ngroups
        invariant
            df.wf(),
            n == df_height(df@),
            nn == n,
            ngroups == reps@.len(),
            repsv == usize_ints(reps@),
            forall|t: int| 0 <= t < reps@.len() ==> (#[trigger] reps@[t]) < n,
            kcols@.len() == kidxv.len(),
            forall|t: int|
                0 <= t < kidxv.len() ==> 0 <= #[trigger] kidxv[t] < df@.len()
                    && kcols@[t]@.map_values(|x: Option<Value>| opt_view(x)) == df@[kidxv[t]].cells,
            g2 <= ngroups,
            cells@.len() == g2,
            agg_col_cells(kind, inner@, df@, kidxv, repsv, n) == (match agg_col_cells(
                kind,
                inner@,
                df@,
                kidxv,
                repsv.skip(g2 as int),
                n,
            ) {
                Ok(rest) => Ok::<Seq<Option<ValueV>>, PolarsError>(cells@.map_values(
                    |x: Option<Value>| opt_view(x),
                ) + rest),
                Err(e) => Err(e),
            }),
        decreases ngroups - g2,
    {
        proof {
            assert(repsv.skip(g2 as int)[0] == repsv[g2 as int]);
            assert(repsv.skip(g2 as int).drop_first() =~= repsv.skip(g2 + 1));
        }
        let members = compute_members(kcols, reps[g2], nn, Ghost(df@), Ghost(kidxv));
        let sub = df.take_opt(&members);
        proof {
            assert(sub@ == df_take_cols(df@, opt_idxs(group_members(
                df@,
                kidxv,
                n,
                repsv[g2 as int],
            ))));
        }
        let srs = match crate::expr::eval_expr(inner, &sub) {
            Ok(srs) => srs,
            Err(er) => {
                proof {
                    assert(agg_col_cells(kind, inner@, df@, kidxv, repsv.skip(g2 as int), n)
                        == Err::<Seq<Option<ValueV>>, PolarsError>(er));
                }
                return Err(er);
            },
        };
        let vals = srs.ca.to_opt_vec();
        let cell = match agg_cell_exec(kind, &vals) {
            Ok(cl) => cl,
            Err(er) => {
                proof {
                    assert(vals@.map_values(|x: Option<Value>| opt_view(x))
                        == srs.view_col().cells);
                    assert(agg_col_cells(kind, inner@, df@, kidxv, repsv.skip(g2 as int), n)
                        == Err::<Seq<Option<ValueV>>, PolarsError>(er));
                }
                return Err(er);
            },
        };
        let ghost prevc = cells@;
        cells.push(cell);
        proof {
            assert(vals@.map_values(|x: Option<Value>| opt_view(x)) == srs.view_col().cells);
            let cm = cells@.map_values(|x: Option<Value>| opt_view(x));
            let pm = prevc.map_values(|x: Option<Value>| opt_view(x));
            assert forall|k: int| 0 <= k < prevc.len() implies #[trigger] cm[k] == pm[k] by {
                assert(cells@[k] == prevc[k]);
            }
            match agg_col_cells(kind, inner@, df@, kidxv, repsv.skip(g2 + 1), n) {
                Ok(rest) => {
                    assert(cm =~= pm + seq![cm[prevc.len() as int]]);
                    assert(cm + rest =~= pm + (seq![cm[prevc.len() as int]] + rest));
                },
                Err(_) => {},
            }
        }
        g2 += 1;
    }
    proof {
        assert(repsv.skip(ngroups as int) =~= Seq::<int>::empty());
        assert(cells@.map_values(|x: Option<Value>| opt_view(x)) + Seq::<
            Option<ValueV>,
        >::empty() =~= cells@.map_values(|x: Option<Value>| opt_view(x)));
    }
    Ok(cells)
}

/// Groups and aggregates a table, as `aggregate_step` says.
#[verifier::rlimit(50)]
fn exec_aggregate(df: &DataFrame, keys: &Vec<String>, aggs: &Vec<crate::expr::Expr>) -> (r: Result<
    DataFrame,
    PolarsError,
>)
    requires
        df.wf(),
    ensures
        match r {
            Ok(out) => out.wf() && aggregate_step(
                df@,
                crate::plan::names_view(keys@),
                crate::plan::exprs_view(aggs@),
            ) == Ok::<Seq<ColV>, PolarsError>(out@),
            Err(er) => aggregate_step(
                df@,
                crate::plan::names_view(keys@),
                crate::plan::exprs_view(aggs@),
            ) == Err::<Seq<ColV>, PolarsError>(er),
        },
{
    let ghost kv = crate::plan::names_view(keys@);
    let nkeys = keys.len();
    let mut kidx: Vec<usize> = Vec::new();
    let mut c: usize = 0;
    proof {
        assert(kv.skip(0) =~= kv);
    }
    while c < nkeys
        invariant
            df.wf(),
            nkeys == keys@.len(),
            kv == crate::plan::names_view(keys@),
            c <= nkeys,
            kidx@.len() == c,
            forall|t: int| 0 <= t < c ==> (#[trigger] kidx@[t]) < df@.len(),
            key_idxs(df@, kv) == (match key_idxs(df@, kv.skip(c as int)) {
                Some(rest) => Some(usize_ints(kidx@) + rest),
                None => None::<Seq<int>>,
            }),
        decreases nkeys - c,
    {
        proof {
            assert(kv.skip(c as int)[0] == kv[c as int]);
            assert(kv.skip(c as int).drop_first() =~= kv.skip(c + 1));
            assert(kv[c as int] == keys@[c as int]@);
        }
        let ghost prev = kidx@;
        match df.find_col(&keys[c]) {
            Some(i) => {
                proof {
                    crate::frame::lemma_df_find(df@, kv[c as int]);
                }
                kidx.push(i);
                proof {
                    assert forall|k: int| 0 <= k < prev.len() implies #[trigger] usize_ints(
                        kidx@,
                    )[k] == usize_ints(prev)[k] by {
                        assert(kidx@[k] == prev[k]);
                    }
                    assert(usize_ints(kidx@)[prev.len() as int] == i as int);
                    match key_idxs(df@, kv.skip(c + 1)) {
                        Some(rest) => {
                            assert(usize_ints(kidx@) + rest =~= usize_ints(prev) + (seq![i as int] + rest));
                        },
                        None => {},
                    }
                }
            },
            None => {
                return Err(PolarsError::UnknownColumn);
            },
        }
        c += 1;
    }
    proof {
        assert(kv.skip(nkeys as int) =~= Seq::<Seq<char>>::empty());
        assert(usize_ints(kidx@) + Seq::<int>::empty() =~= usize_ints(kidx@));
    }
    let ghost kidxv = usize_ints(kidx@);
    let n = df.height();
    let mut kcols: Vec<Vec<Option<Value>>> = Vec::new();
    let mut c2: usize = 0;
    while c2 < nkeys
        invariant
            df.wf(),
            nkeys == kidx@.len(),
            kidxv == usize_ints(kidx@),
            forall|t: int| 0 <= t < nkeys ==> (#[trigger] kidx@[t]) < df@.len(),
            c2 <= nkeys,
            kcols@.len() == c2,
            forall|t: int|
                0 <= t < c2 ==> (#[trigger] kcols@[t])@.map_values(
                    |x: Option<Value>| opt_view(x),
                ) == df@[kidxv[t]].cells,
        decreases nkeys - c2,
    {
        let cells = df.columns[kidx[c2]].ca.to_opt_vec();
        kcols.push(cells);
        c2 += 1;
    }
    proof {
        assert forall|t: int| 0 <= t < kidxv.len() implies 0 <= #[trigger] kidxv[t] < df@.len()
            && kcols@[t]@.map_values(|x: Option<Value>| opt_view(x)) == df@[kidxv[t]].cells by {
            assert(kidx@[t] < df@.len());
        }
    }
    let reps = compute_reps(&kcols, n, Ghost(df@), Ghost(kidxv));
    let ghost repsv = usize_ints(reps@);
    let ngroups = reps.len();
    let mut keep: Vec<Option<usize>> = Vec::new();
    let mut g: usize = 0;
    while g < ngroups
        invariant
            ngroups == reps@.len(),
            forall|t: int| 0 <= t < reps@.len() ==> (#[trigger] reps@[t]) < n,
            n == df_height(df@),
            g <= ngroups,
            keep@.len() == g,
            forall|t: int| 0 <= t < g ==> #[trigger] keep@[t] == Some(reps@[t]),
        decreases ngroups - g,
    {
        keep.push(Some(reps[g]));
        g += 1;
    }
    proof {
        assert(crate::frame::idxs_view(keep@) =~= opt_idxs(repsv));
    }
    let taken = df.take_opt(&keep);
    let mut out: Vec<Series> = Vec::new();
    let mut c3: usize = 0;
    while c3 < nkeys
        invariant
            df.wf(),
            taken.wf(),
            taken@ == crate::frame::df_take(df@, opt_idxs(repsv)),
            nkeys == kidx@.len(),
            kidxv == usize_ints(kidx@),
            forall|t: int| 0 <= t < nkeys ==> (#[trigger] kidx@[t]) < df@.len(),
            taken@.len() == df@.len(),
            ngroups == reps@.len(),
            repsv == usize_ints(reps@),
            c3 <= nkeys,
            out@.len() == c3,
            forall|k: int| 0 <= k < out@.len() ==> (#[trigger] out@[k]).wf(),
            forall|k: int|
                0 <= k < c3 ==> #[trigger] crate::frame::cols_view(out@)[k] == key_out_cols(
                    df@,
                    kidxv,
                    repsv,
                )[k],
            forall|k: int|
                0 <= k < c3 ==> (#[trigger] out@[k]).view_col().cells.len() == repsv.len(),
        decreases nkeys - c3,
    {
        let src = &taken.columns[kidx[c3]];
        let cells = src.ca.to_opt_vec();
        let srs = Series::new_opt(src.ca.get_name().as_str(), src.dtype, &cells);
        let ghost prev = out@;
        proof {
            assert(taken@[kidxv[c3 as int]] == crate::frame::df_take(df@, opt_idxs(repsv))[
                kidxv[c3 as int]]);
            assert(srs.view_col().cells =~= taken@[kidxv[c3 as int]].cells);
            assert(srs.view_col() =~= key_out_cols(df@, kidxv, repsv)[c3 as int]);
        }
        out.push(srs);
        proof {
            assert forall|k: int| 0 <= k < prev.len() implies #[trigger] crate::frame::cols_view(
                out@,
            )[k] == crate::frame::cols_view(prev)[k] by {
                assert(out@[k] == prev[k]);
            }
        }
        c3 += 1;
    }
    let ghost kout = key_out_cols(df@, kidxv, repsv);
    let ghost ev = crate::plan::exprs_view(aggs@);
    let naggs = aggs.len();
    let mut a: usize = 0;
    proof {
        assert(ev.skip(0) =~= ev);
        match agg_out_cols(ev, df@, kidxv, repsv, n as int) {
            Ok(rest) => {
                assert(crate::frame::cols_view(out@).skip(nkeys as int) =~= Seq::<ColV>::empty());
            },
            Err(_) => {},
        }
    }
    while a < naggs
        invariant
            df.wf(),
            n == df_height(df@),
            naggs == aggs@.len(),
            ev == crate::plan::exprs_view(aggs@),
            nkeys == kidx@.len(),
            kidxv == usize_ints(kidx@),
            repsv == usize_ints(reps@),
            ngroups == reps@.len(),
            forall|t: int| 0 <= t < reps@.len() ==> (#[trigger] reps@[t]) < n,
            nkeys == kcols@.len(),
            nkeys == kidxv.len(),
            forall|t: int|
                0 <= t < kidxv.len() ==> 0 <= #[trigger] kidxv[t] < df@.len()
                    && kcols@[t]@.map_values(|x: Option<Value>| opt_view(x)) == df@[kidxv[t]].cells,
            kv == crate::plan::names_view(keys@),
            key_idxs(df@, kv) == Some(kidxv),
            repsv == group_reps(df@, kidxv, n as int),
            a <= naggs,
            out@.len() == nkeys + a,
            forall|k: int| 0 <= k < out@.len() ==> (#[trigger] out@[k]).wf(),
            forall|k: int|
                0 <= k < nkeys ==> #[trigger] crate::frame::cols_view(out@)[k] == kout[k],
            forall|k: int|
                0 <= k < out@.len() ==> (#[trigger] out@[k]).view_col().cells.len()
                    == repsv.len(),
            agg_out_cols(ev, df@, kidxv, repsv, n as int) == (match agg_out_cols(
                ev.skip(a as int),
                df@,
                kidxv,
                repsv,
                n as int,
            ) {
                Ok(rest) => Ok::<Seq<ColV>, PolarsError>(
                    crate::frame::cols_view(out@).skip(nkeys as int) + rest,
                ),
                Err(e) => Err(e),
            }),
        decreases naggs - a,
    {
        proof {
            assert(ev.skip(a as int)[0] == ev[a as int]);
            assert(ev.skip(a as int).drop_first() =~= ev.skip(a + 1));
            assert(ev[a as int] == aggs@[a as int]@);
        }
        let parts = match agg_parts_exec(&aggs[a]) {
            Some(p) => p,
            None => {
                proof {
                    assert(agg_out_cols(ev.skip(a as int), df@, kidxv, repsv, n as int) == Err::<
                        Seq<ColV>,
                        PolarsError,
                    >(PolarsError::TypeMismatch));
                }
                return Err(PolarsError::TypeMismatch);
            },
        };
        let cells = match compute_agg_col(df, &kcols, &reps, parts.1, &parts.2, Ghost(kidxv)) {
            Ok(cl) => cl,
            Err(er) => {
                proof {
                    assert(agg_out_cols(ev.skip(a as int), df@, kidxv, repsv, n as int) == Err::<
                        Seq<ColV>,
                        PolarsError,
                    >(er));
                }
                return Err(er);
            },
        };
        let srs = Series::new_opt(parts.0.as_str(), DataType::Int64, &cells);
        let ghost prev = out@;
        out.push(srs);
        proof {
            assert forall|k: int| 0 <= k < prev.len() implies #[trigger] crate::frame::cols_view(
                out@,
            )[k] == crate::frame::cols_view(prev)[k] by {
                assert(out@[k] == prev[k]);
            }
            match agg_out_cols(ev.skip(a + 1), df@, kidxv, repsv, n as int) {
                Ok(rest) => {
                    assert(crate::frame::cols_view(out@).skip(nkeys as int)
                        =~= crate::frame::cols_view(prev).skip(nkeys as int) + seq![
                        crate::frame::cols_view(out@)[prev.len() as int],
                    ]);
                    assert(crate::frame::cols_view(out@)[prev.len() as int] =~= (ColV {
                        name: parts.0@,
                        dtype: DataType::Int64,
                        cells: cells@.map_values(|x: Option<Value>| opt_view(x)),
                    }));
                    assert(crate::frame::cols_view(out@).skip(nkeys as int) + rest
                        =~= crate::frame::cols_view(prev).skip(nkeys as int) + (seq![
                        crate::frame::cols_view(out@)[prev.len() as int],
                    ] + rest));
                },
                Err(_) => {},
            }
        }
        a += 1;
    }
    proof {
        assert(ev.skip(naggs as int) =~= Seq::<ExprV>::empty());
        assert(crate::frame::cols_view(out@).skip(nkeys as int) + Seq::<ColV>::empty()
            =~= crate::frame::cols_view(out@).skip(nkeys as int));
    }
    let ghost outv = crate::frame::cols_view(out@);
    proof {
        assert(outv =~= kout + outv.skip(nkeys as int));
    }
    if !cols_unique_check(&out) {
        return Err(PolarsError::DuplicateColumn);
    }
    let res = DataFrame { columns: out };
    proof {
        assert forall|k: int| 0 <= k < outv.len() implies (#[trigger] outv[k].cells).len()
            == crate::frame::df_height(outv) by {
            assert(outv[k] == res.columns@[k].view_col());
            assert(outv[k].cells.len() == repsv.len());
            if outv.len() > 0 {
                assert(outv[0] == res.columns@[0].view_col());
                assert(outv[0].cells.len() == repsv.len());
            }
        }
        assert(crate::frame::df_wf_v(res@));
    }
    Ok(res)
}


/// A fresh copy of a table with the same view.
pub fn copy_df(df: &DataFrame) -> (r: DataFrame)
    requires
        df.wf(),
    ensures
        r.wf(),
        r@ == df@,
{
    let ncols = df.columns.len();
    let mut out: Vec<Series> = Vec::new();
    let mut c: usize = 0;
    while c < ncols
        invariant
            df.wf(),
            ncols == df.columns@.len(),
            c <= ncols,
            out@.len() == c,
            forall|k: int| 0 <= k < out@.len() ==> (#[trigger] out@[k]).wf(),
            forall|k: int|
                0 <= k < c ==> #[trigger] crate::frame::cols_view(out@)[k] == df@[k],
        decreases ncols - c,
    {
        let cells = df.columns[c].ca.to_opt_vec();
        let srs = Series::new_opt(
            df.columns[c].ca.get_name().as_str(),
            df.columns[c].dtype,
            &cells,
        );
        let ghost prev = out@;
        proof {
            assert(srs.view_col().cells =~= df@[c as int].cells);
            assert(srs.view_col() =~= df@[c as int]);
        }
        out.push(srs);
        proof {
            assert forall|k: int| 0 <= k < prev.len() implies #[trigger] crate::frame::cols_view(
                out@,
            )[k] == crate::frame::cols_view(prev)[k] by {
                assert(out@[k] == prev[k]);
            }
        }
        c += 1;
    }
    let r = DataFrame { columns: out };
    proof {
        assert(r@ =~= df@);
    }
    r
}

/// Lowers an optimized plan into a materialized table, bottom up, as
/// `run_plan` says; the first operator failure aborts the whole run.
pub fn run_plan_exec(p: &crate::plan::LogicalPlan) -> (r: Result<DataFrame, PolarsError>)
    requires
        crate::plan::plan_exec_wf(*p),
    ensures
        match r {
            Ok(df) => df.wf() && run_plan(p@) == Ok::<Seq<ColV>, PolarsError>(df@),
            Err(er) => run_plan(p@) == Err::<Seq<ColV>, PolarsError>(er),
        },
    decreases *p,
{
    match p {
        crate::plan::LogicalPlan::Scan { df, projection } => match projection {
            None => Ok(copy_df(df)),
            Some(ns) => Ok(exec_project_cols(df, ns)),
        },
        crate::plan::LogicalPlan::Filter { input, predicate } => {
            let inner = match run_plan_exec(input) {
                Ok(d) => d,
                Err(er) => {
                    return Err(er);
                },
            };
            let mask = match crate::expr::eval_expr(predicate, &inner) {
                Ok(m) => m,
                Err(er) => {
                    return Err(er);
                },
            };
            if mask.dtype != DataType::Boolean {
                return Err(PolarsError::TypeMismatch);
            }
            proof {
                crate::expr::lemma_eval_len(predicate@, inner@);
            }
            Ok(exec_filter_mask(&inner, &mask))
        },
        crate::plan::LogicalPlan::Projection { input, exprs } => {
            let inner = match run_plan_exec(input) {
                Ok(d) => d,
                Err(er) => {
                    return Err(er);
                },
            };
            exec_projection_cols(&inner, exprs)
        },
        crate::plan::LogicalPlan::Aggregate { input, keys, aggs } => {
            let inner = match run_plan_exec(input) {
                Ok(d) => d,
                Err(er) => {
                    return Err(er);
                },
            };
            exec_aggregate(&inner, keys, aggs)
        },
        crate::plan::LogicalPlan::Join { left, right, how, left_on, right_on } => {
            let l = match run_plan_exec(left) {
                Ok(d) => d,
                Err(er) => {
                    return Err(er);
                },
            };
            let rr = match run_plan_exec(right) {
                Ok(d) => d,
                Err(er) => {
                    return Err(er);
                },
            };
            exec_join(&l, &rr, *how, left_on, right_on)
        },
        crate::plan::LogicalPlan::Sort { input, by, reverse } => {
            let inner = match run_plan_exec(input) {
                Ok(d) => d,
                Err(er) => {
                    return Err(er);
                },
            };
            exec_sort(&inner, by, *reverse)
        },
    }
}

} // verus!
