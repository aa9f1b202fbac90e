//! Joining two tables on pairs of key columns.

use vstd::prelude::*;
use crate::error::TableError;
use crate::model::{
    all_found, cell_at, column_position, find_columns, first_unknown, height_of,
    lemma_first_unknown, names_of, positions_of, row_at, ColumnView, DataTable, TableColumn,
};
use crate::options::JoinKind;
use crate::rows::{compose_key, key_spec, positions_where, table_rows};
use crate::schema::name_in;
use crate::text::{concat, text_eq};

verus! {

/// The key of every row of a table over the given column positions.
pub open spec fn row_keys(t: Seq<ColumnView>, idx: Seq<usize>) -> Seq<Seq<char>> {
    Seq::new(height_of(t), |i: int| key_spec(row_at(t, i), idx))
}

/// A joined row: the left row it takes its left cells from and the right row
/// it takes its right cells from (none: all missing).
pub type RowPair = (Option<usize>, Option<usize>);

/// Right rows whose key equals `k`, ascending.
pub open spec fn matches_of(rk: Seq<Seq<char>>, k: Seq<char>) -> Seq<usize> {
    positions_where(rk.len(), |j: int| rk[j] == k)
}

/// Joined rows contributed by left row `i`: one per matching right row, or,
/// without a match, the left row alone unless the join is inner.
pub open spec fn left_block(lk: Seq<Seq<char>>, rk: Seq<Seq<char>>, i: int, kind: JoinKind) -> Seq<
    RowPair,
> {
    let m = matches_of(rk, lk[i]);
    if m.len() > 0 {
        m.map_values(|j: usize| (Some(i as usize), Some(j)))
    } else if kind != JoinKind::Inner {
        seq![(Some(i as usize), None)]
    } else {
        Seq::empty()
    }
}

/// Joined rows of the first `n` left rows, in order.
pub open spec fn left_pairs(lk: Seq<Seq<char>>, rk: Seq<Seq<char>>, n: nat, kind: JoinKind) -> Seq<
    RowPair,
>
    decreases n,
{
    if n == 0 {
        Seq::empty()
    } else {
        left_pairs(lk, rk, (n - 1) as nat, kind) + left_block(lk, rk, n - 1, kind)
    }
}

/// Right rows whose key no left row has, ascending.
pub open spec fn unmatched_right(lk: Seq<Seq<char>>, rk: Seq<Seq<char>>) -> Seq<usize> {
    positions_where(rk.len(), |j: int| !lk.contains(rk[j]))
}

/// All joined rows: left rows in order with their matches, then, for an outer
/// join, the right rows that matched nothing.
pub open spec fn join_pairs(lk: Seq<Seq<char>>, rk: Seq<Seq<char>>, kind: JoinKind) -> Seq<RowPair> {
    left_pairs(lk, rk, lk.len(), kind) + if kind == JoinKind::Outer {
        unmatched_right(lk, rk).map_values(|j: usize| (None::<usize>, Some(j)))
    } else {
        Seq::empty()
    }
}

/// Right columns that are not key columns, in order.
pub open spec fn extra_columns(r: Seq<ColumnView>, right_keys: Seq<Seq<char>>) -> Seq<usize> {
    positions_where(r.len(), |c: int| !right_keys.contains(r[c].name))
}

/// Names of the added right columns: a name already taken (by a left column or
/// an earlier added column) gets `_right`.
pub open spec fn extra_names(base: Seq<Seq<char>>, ns: Seq<Seq<char>>) -> Seq<Seq<char>>
    decreases ns.len(),
{
    if ns.len() == 0 {
        Seq::empty()
    } else {
        let prev = extra_names(base, ns.drop_last());
        let x = ns.last();
        if (base + prev).contains(x) {
            prev.push(x + "_right"@)
        } else {
            prev.push(x)
        }
    }
}

proof fn lemma_extra_names_len(base: Seq<Seq<char>>, ns: Seq<Seq<char>>)
    ensures
        extra_names(base, ns).len() == ns.len(),
    decreases ns.len(),
{
    if ns.len() > 0 {
        lemma_extra_names_len(base, ns.drop_last());
    }
}

/// Cell of column `col` in the row a pair side points to.
pub open spec fn side_cell(col: ColumnView, side: Option<usize>) -> Option<Seq<char>> {
    match side {
        Some(i) => cell_at(col, i as int),
        None => None,
    }
}

/// The joined table.
pub open spec fn joined(
    l: Seq<ColumnView>,
    r: Seq<ColumnView>,
    left_keys: Seq<Seq<char>>,
    right_keys: Seq<Seq<char>>,
    kind: JoinKind,
) -> Seq<ColumnView> {
    let pairs = join_pairs(
        row_keys(l, positions_of(l, left_keys)),
        row_keys(r, positions_of(r, right_keys)),
        kind,
    );
    let extras = extra_columns(r, right_keys);
    let names = extra_names(names_of(l), Seq::new(extras.len(), |e: int| r[extras[e] as int].name));
    Seq::new(
        l.len() + extras.len(),
        |c: int|
            if c < l.len() {
                (ColumnView {
                    name: l[c].name,
                    logical_type: l[c].logical_type,
                    values: pairs.map_values(|p: RowPair| side_cell(l[c], p.0)),
                })
            } else {
                (ColumnView {
                    name: names[c - l.len()],
                    logical_type: r[extras[c - l.len()] as int].logical_type,
                    values: pairs.map_values(
                        |p: RowPair| side_cell(r[extras[c - l.len()] as int], p.1),
                    ),
                })
            },
    )
}

/// The key of every row.
pub fn keys_of(table: &DataTable, idx: &Vec<usize>) -> (r: Vec<String>)
    ensures
        r.deep_view() == row_keys(table@, idx@),
{
    let rows = table_rows(table);
    let mut out: Vec<String> = Vec::new();
    let mut i: usize = 0;
    while i < rows.len()
        invariant
            rows@.len() == height_of(table@),
            forall|k: int| 0 <= k < rows@.len() ==> #[trigger] rows@[k].deep_view() == row_at(table@, k),
            0 <= i <= rows@.len(),
            out@.len() == i,
            forall|k: int| 0 <= k < i ==> #[trigger] out@[k]@ == key_spec(row_at(table@, k), idx@),
        decreases rows.len() - i,
    {
        out.push(compose_key(&rows[i], idx));
        i += 1;
    }
    assert(out.deep_view() =~= row_keys(table@, idx@));
    out
}

/// Whether `x` is one of `keys`.
fn key_listed(keys: &Vec<String>, x: &String) -> (r: bool)
    ensures
        r == keys.deep_view().contains(x@),
{
    name_in(keys, x.as_str())
}

/// The place, among the positions a filter keeps, of a kept position.
proof fn lemma_position_index(n: nat, keep: spec_fn(int) -> bool, a: int) -> (k: int)
    requires
        0 <= a < n,
        keep(a),
        n <= usize::MAX,
    ensures
        0 <= k < positions_where(n, keep).len(),
        positions_where(n, keep)[k] as int == a,
    decreases n,
{
    let p = positions_where((n - 1) as nat, keep);
    if a == n - 1 {
        p.len() as int
    } else {
        lemma_position_index((n - 1) as nat, keep, a)
    }
}

/// What each pair among the joined rows of the first `n` left rows is.
proof fn lemma_left_pairs_facts(lk: Seq<Seq<char>>, rk: Seq<Seq<char>>, n: nat, kind: JoinKind, k: int)
    requires
        n <= lk.len() <= usize::MAX,
        rk.len() <= usize::MAX,
        0 <= k < left_pairs(lk, rk, n, kind).len(),
    ensures
        ({
            let p = left_pairs(lk, rk, n, kind)[k];
            &&& p.0 matches Some(i) && (i as int) < n
            &&& (p.0 matches Some(i) && p.1 matches Some(j) ==> (j as int) < rk.len() && rk[j as int]
                == lk[i as int])
            &&& (kind == JoinKind::Inner ==> p.1 is Some)
        }),
    decreases n,
{
    let prev = left_pairs(lk, rk, (n - 1) as nat, kind);
    let i = n - 1;
    let m = matches_of(rk, lk[i]);
    assert(left_pairs(lk, rk, n, kind) == prev + left_block(lk, rk, i, kind));
    if k < prev.len() {
        lemma_left_pairs_facts(lk, rk, (n - 1) as nat, kind, k);
    } else {
        let b = k - prev.len();
        if m.len() > 0 {
            crate::preview::lemma_positions_where_bound(rk.len(), |j: int| rk[j] == lk[i], b);
            assert(left_block(lk, rk, i, kind)[b] == (Some(i as usize), Some(m[b])));
        }
    }
}

/// The joined rows of the first `n` left rows include `(i, j)` for a left
/// row `i < n` and a right row `j` with the same key.
proof fn lemma_left_pairs_match(lk: Seq<Seq<char>>, rk: Seq<Seq<char>>, n: nat, kind: JoinKind, i: int, j: int) -> (k: int)
    requires
        n <= lk.len() <= usize::MAX,
        rk.len() <= usize::MAX,
        0 <= i < n,
        0 <= j < rk.len(),
        lk[i] == rk[j],
    ensures
        0 <= k < left_pairs(lk, rk, n, kind).len(),
        left_pairs(lk, rk, n, kind)[k] == (Some(i as usize), Some(j as usize)),
    decreases n,
{
    let prev = left_pairs(lk, rk, (n - 1) as nat, kind);
    assert(left_pairs(lk, rk, n, kind) == prev + left_block(lk, rk, n - 1, kind));
    if i < n - 1 {
        lemma_left_pairs_match(lk, rk, (n - 1) as nat, kind, i, j)
    } else {
        let b = lemma_position_index(rk.len(), |x: int| rk[x] == lk[i], j);
        prev.len() + b
    }
}

/// The joined rows of the first `n` left rows of a join that is not inner
/// include a pair taking its left cells from row `i < n`.
proof fn lemma_left_pairs_keep(lk: Seq<Seq<char>>, rk: Seq<Seq<char>>, n: nat, kind: JoinKind, i: int) -> (k: int)
    requires
        n <= lk.len() <= usize::MAX,
        rk.len() <= usize::MAX,
        0 <= i < n,
        kind != JoinKind::Inner,
    ensures
        0 <= k < left_pairs(lk, rk, n, kind).len(),
        left_pairs(lk, rk, n, kind)[k].0 == Some(i as usize),
    decreases n,
{
    let prev = left_pairs(lk, rk, (n - 1) as nat, kind);
    assert(left_pairs(lk, rk, n, kind) == prev + left_block(lk, rk, n - 1, kind));
    if i < n - 1 {
        lemma_left_pairs_keep(lk, rk, (n - 1) as nat, kind, i)
    } else {
        let m = matches_of(rk, lk[i]);
        if m.len() > 0 {
            assert(left_block(lk, rk, i, kind)[0] == (Some(i as usize), Some(m[0])));
        }
        prev.len() as int
    }
}

/// Every joined row takes its cells from at least one side; a row with both
/// sides pairs rows with equal keys; an inner join has only such rows and a
/// left join takes every row's left cells from a left row.
pub proof fn lemma_join_pairs_match(lk: Seq<Seq<char>>, rk: Seq<Seq<char>>, kind: JoinKind, k: int)
    requires
        lk.len() <= usize::MAX,
        rk.len() <= usize::MAX,
        0 <= k < join_pairs(lk, rk, kind).len(),
    ensures
        ({
            let p = join_pairs(lk, rk, kind)[k];
            &&& p.0 is Some || p.1 is Some
            &&& (p.0 is Some && p.1 is Some ==> (p.0->0 as int) < lk.len() && (p.1->0 as int) < rk.len()
                && lk[p.0->0 as int] == rk[p.1->0 as int])
            &&& (kind == JoinKind::Inner ==> p.0 is Some && p.1 is Some)
            &&& (kind == JoinKind::Left ==> p.0 is Some)
        }),
{
    let lp = left_pairs(lk, rk, lk.len(), kind);
    if k < lp.len() {
        lemma_left_pairs_facts(lk, rk, lk.len(), kind, k);
        assert(join_pairs(lk, rk, kind)[k] == lp[k]);
    } else {
        let u = unmatched_right(lk, rk);
        assert(kind == JoinKind::Outer);
        assert(join_pairs(lk, rk, kind)[k] == (None::<usize>, Some(u[k - lp.len()])));
    }
}

/// Rows with equal keys are always joined; a left or outer join keeps every
/// left row, and an outer join keeps every right row.
pub proof fn lemma_join_keeps_rows(lk: Seq<Seq<char>>, rk: Seq<Seq<char>>, kind: JoinKind, i: int, j: int)
    requires
        lk.len() <= usize::MAX,
        rk.len() <= usize::MAX,
    ensures
        0 <= i < lk.len() && 0 <= j < rk.len() && lk[i] == rk[j] ==> join_pairs(lk, rk, kind).contains(
            (Some(i as usize), Some(j as usize)),
        ),
        0 <= i < lk.len() && kind != JoinKind::Inner ==> exists|k: int|
            0 <= k < join_pairs(lk, rk, kind).len() && #[trigger] join_pairs(lk, rk, kind)[k].0 == Some(i as usize),
        0 <= j < rk.len() && kind == JoinKind::Outer ==> exists|k: int|
            0 <= k < join_pairs(lk, rk, kind).len() && #[trigger] join_pairs(lk, rk, kind)[k].1 == Some(j as usize),
{
    let pairs = join_pairs(lk, rk, kind);
    let lp = left_pairs(lk, rk, lk.len(), kind);
    if 0 <= i < lk.len() && 0 <= j < rk.len() && lk[i] == rk[j] {
        let k = lemma_left_pairs_match(lk, rk, lk.len(), kind, i, j);
        assert(pairs[k] == lp[k]);
    }
    if 0 <= i < lk.len() && kind != JoinKind::Inner {
        let k = lemma_left_pairs_keep(lk, rk, lk.len(), kind, i);
        assert(pairs[k] == lp[k]);
    }
    if 0 <= j < rk.len() && kind == JoinKind::Outer {
        if lk.contains(rk[j]) {
            let i2 = choose|x: int| 0 <= x < lk.len() && lk[x] == rk[j];
            let k = lemma_left_pairs_match(lk, rk, lk.len(), kind, i2, j);
            assert(pairs[k] == lp[k]);
            assert(pairs[k].1 == Some(j as usize));
        } else {
            let b = lemma_position_index(rk.len(), |x: int| !lk.contains(rk[x]), j);
            let k = lp.len() + b;
            assert(pairs[k].1 == Some(j as usize));
        }
    }
}

/// The joined rows (see `join_pairs`).
pub fn pair_rows(lk: &Vec<String>, rk: &Vec<String>, kind: JoinKind) -> (r: Vec<RowPair>)
    ensures
        r@ == join_pairs(lk.deep_view(), rk.deep_view(), kind),
{
    let ghost l = lk.deep_view();
    let ghost rr = rk.deep_view();
    let mut out: Vec<RowPair> = Vec::new();
    let mut i: usize = 0;
    while i < lk.len()
        invariant
            l == lk.deep_view(),
            rr == rk.deep_view(),
            0 <= i <= l.len(),
            out@ == left_pairs(l, rr, i as nat, kind),
        decreases lk.len() - i,
    {
        let ghost before = out@;
        let ghost keep = |j: int| rr[j] == l[i as int];
        let mut found: usize = 0;
        let mut j: usize = 0;
        while j < rk.len()
            invariant
                l == lk.deep_view(),
                rr == rk.deep_view(),
                i < l.len(),
                keep == (|j: int| rr[j] == l[i as int]),
                0 <= j <= rr.len(),
                found == positions_where(j as nat, keep).len(),
                found <= j,
                out@ == before + positions_where(j as nat, keep).map_values(
                    |m: usize| (Some(i), Some(m)),
                ),
            decreases rk.len() - j,
        {
            let ghost p = positions_where(j as nat, keep);
            if text_eq(rk[j].as_str(), lk[i].as_str()) {
                assert(rr[j as int] == l[i as int]);
                out.push((Some(i), Some(j)));
                found += 1;
            }
            assert(positions_where((j + 1) as nat, keep) == if keep(j as int) {
                p.push(j)
            } else {
                p
            });
            assert(out@ =~= before + positions_where((j + 1) as nat, keep).map_values(
                |m: usize| (Some(i), Some(m)),
            ));
            j += 1;
        }
        if found == 0 && kind != JoinKind::Inner {
            out.push((Some(i), None));
        }
        assert(left_pairs(l, rr, (i + 1) as nat, kind) == left_pairs(l, rr, i as nat, kind)
            + left_block(l, rr, i as int, kind));
        assert(out@ =~= left_pairs(l, rr, (i + 1) as nat, kind));
        i += 1;
    }
    if kind == JoinKind::Outer {
        let ghost before = out@;
        let ghost keep = |j: int| !l.contains(rr[j]);
        let mut j: usize = 0;
        while j < rk.len()
            invariant
                l == lk.deep_view(),
                rr == rk.deep_view(),
                keep == (|j: int| !l.contains(rr[j])),
                0 <= j <= rr.len(),
                out@ == before + positions_where(j as nat, keep).map_values(
                    |m: usize| (None::<usize>, Some(m)),
                ),
            decreases rk.len() - j,
        {
            let ghost p = positions_where(j as nat, keep);
            if !key_listed(lk, &rk[j]) {
                out.push((None, Some(j)));
            }
            assert(positions_where((j + 1) as nat, keep) == if keep(j as int) {
                p.push(j)
            } else {
                p
            });
            assert(out@ =~= before + positions_where((j + 1) as nat, keep).map_values(
                |m: usize| (None::<usize>, Some(m)),
            ));
            j += 1;
        }
    }
    assert(out@ =~= join_pairs(l, rr, kind));
    out
}

/// Cells of a column at the rows a side of each pair points to.
fn side_values(column: &TableColumn, pairs: &Vec<RowPair>, left_side: bool) -> (r: Vec<
    Option<String>,
>)
    ensures
        r.deep_view() == pairs@.map_values(
            |p: RowPair|
                side_cell(
                    column@,
                    if left_side {
                        p.0
                    } else {
                        p.1
                    },
                ),
        ),
{
    let mut out: Vec<Option<String>> = Vec::new();
    let mut k: usize = 0;
    while k < pairs.len()
        invariant
            0 <= k <= pairs@.len(),
            out@.len() == k,
            forall|m: int|
                0 <= m < k ==> #[trigger] out@[m].deep_view() == side_cell(
                    column@,
                    if left_side {
                        pairs@[m].0
                    } else {
                        pairs@[m].1
                    },
                ),
        decreases pairs.len() - k,
    {
        let side = if left_side {
            pairs[k].0
        } else {
            pairs[k].1
        };
        match side {
            Some(i) => {
                if i < column.values.len() {
                    out.push(crate::model::copy_cell(&column.values[i]));
                } else {
                    out.push(None);
                }
            },
            None => out.push(None),
        }
        k += 1;
    }
    assert(out.deep_view() =~= pairs@.map_values(
        |p: RowPair|
            side_cell(
                column@,
                if left_side {
                    p.0
                } else {
                    p.1
                },
            ),
    ));
    out
}

/// Joins two tables on pairs of key columns. The key lists must be non-empty
/// and of equal length; every key column must exist.
pub fn join_tables(
    left: &DataTable,
    right: &DataTable,
    left_keys: &Vec<String>,
    right_keys: &Vec<String>,
    join_kind: JoinKind,
) -> (r: Result<DataTable, TableError>)
    ensures
        left_keys@.len() == 0 || right_keys@.len() == 0 || left_keys@.len() != right_keys@.len()
            ==> r == Err::<DataTable, TableError>(TableError::KeyPairsRequired),
        !(left_keys@.len() == 0 || right_keys@.len() == 0 || left_keys@.len()
            != right_keys@.len()) ==> {
            if !all_found(left@, left_keys.deep_view()) {
                r matches Err(TableError::ColumnNotFound(n)) && first_unknown(
                    left@,
                    left_keys.deep_view(),
                ) matches Some(k) && n@ == left_keys.deep_view()[k]
            } else if !all_found(right@, right_keys.deep_view()) {
                r matches Err(TableError::ColumnNotFound(n)) && first_unknown(
                    right@,
                    right_keys.deep_view(),
                ) matches Some(k) && n@ == right_keys.deep_view()[k]
            } else {
                r matches Ok(t) && t@ == joined(
                    left@,
                    right@,
                    left_keys.deep_view(),
                    right_keys.deep_view(),
                    join_kind,
                )
            }
        },
{
    if left_keys.len() == 0 || right_keys.len() == 0 || left_keys.len() != right_keys.len() {
        return Err(TableError::KeyPairsRequired);
    }
    let left_idx = match find_columns(left, left_keys) {
        Ok(v) => v,
        Err(e) => {
            proof {
                lemma_first_unknown(left@, left_keys.deep_view());
            }
            return Err(e);
        },
    };
    let right_idx = match find_columns(right, right_keys) {
        Ok(v) => v,
        Err(e) => {
            proof {
                lemma_first_unknown(right@, right_keys.deep_view());
            }
            return Err(e);
        },
    };
    let lk = keys_of(left, &left_idx);
    let rk = keys_of(right, &right_idx);
    let pairs = pair_rows(&lk, &rk, join_kind);
    let ghost extras = extra_columns(right@, right_keys.deep_view());
    let ghost extra_source = Seq::new(extras.len(), |e: int| right@[extras[e] as int].name);
    let ghost out_view = joined(
        left@,
        right@,
        left_keys.deep_view(),
        right_keys.deep_view(),
        join_kind,
    );
    let mut columns: Vec<TableColumn> = Vec::new();
    let mut c: usize = 0;
    while c < left.columns.len()
        invariant
            pairs@ == join_pairs(lk.deep_view(), rk.deep_view(), join_kind),
            lk.deep_view() == row_keys(left@, positions_of(left@, left_keys.deep_view())),
            rk.deep_view() == row_keys(right@, positions_of(right@, right_keys.deep_view())),
            out_view == joined(
                left@,
                right@,
                left_keys.deep_view(),
                right_keys.deep_view(),
                join_kind,
            ),
            0 <= c <= left.columns@.len(),
            columns@.len() == c,
            forall|k: int| 0 <= k < c ==> #[trigger] columns@[k]@ == out_view[k],
        decreases left.columns.len() - c,
    {
        let column = &left.columns[c];
        let values = side_values(column, &pairs, true);
        columns.push(TableColumn { name: column.name.clone(), logical_type: column.logical_type, values });
        assert(columns@[c as int]@ =~= out_view[c as int]);
        c += 1;
    }
    let mut taken: Vec<String> = left.column_names();
    let mut e: usize = 0;
    let ghost keep = |c: int| !right_keys.deep_view().contains(right@[c].name);
    while e < right.columns.len()
        invariant
            pairs@ == join_pairs(lk.deep_view(), rk.deep_view(), join_kind),
            out_view == joined(
                left@,
                right@,
                left_keys.deep_view(),
                right_keys.deep_view(),
                join_kind,
            ),
            keep == (|c: int| !right_keys.deep_view().contains(right@[c].name)),
            extras == extra_columns(right@, right_keys.deep_view()),
            0 <= e <= right.columns@.len(),
            columns@.len() == left@.len() + positions_where(e as nat, keep).len(),
            taken.deep_view() == names_of(left@) + extra_names(
                names_of(left@),
                Seq::new(
                    positions_where(e as nat, keep).len(),
                    |m: int| right@[positions_where(e as nat, keep)[m] as int].name,
                ),
            ),
            forall|k: int| 0 <= k < left@.len() ==> #[trigger] columns@[k]@ == out_view[k],
            forall|m: int|
                0 <= m < positions_where(e as nat, keep).len() ==> #[trigger] columns@[left@.len()
                    + m]@ == (ColumnView {
                    name: extra_names(
                        names_of(left@),
                        Seq::new(
                            positions_where(e as nat, keep).len(),
                            |q: int| right@[positions_where(e as nat, keep)[q] as int].name,
                        ),
                    )[m],
                    logical_type: right@[positions_where(e as nat, keep)[m] as int].logical_type,
                    values: pairs@.map_values(
                        |p: RowPair| side_cell(right@[positions_where(e as nat, keep)[m] as int], p.1),
                    ),
                }),
        decreases right.columns.len() - e,
    {
        let ghost p = positions_where(e as nat, keep);
        assert(positions_where((e + 1) as nat, keep) == if keep(e as int) {
            p.push(e)
        } else {
            p
        });
        let column = &right.columns[e];
        if !name_in(right_keys, column.name.as_str()) {
            let ghost ns = Seq::new(p.len(), |q: int| right@[p[q] as int].name);
            let ghost ns2 = Seq::new(p.len() + 1, |q: int| right@[p.push(e)[q] as int].name);
            assert(ns2.drop_last() =~= ns);
            let name = if name_in(&taken, column.name.as_str()) {
                proof {
                    reveal_strlit("_right");
                }
                concat(column.name.as_str(), "_right")
            } else {
                column.name.clone()
            };
            let values = side_values(column, &pairs, false);
            let ghost old_columns = columns@;
            columns.push(TableColumn { name: name.clone(), logical_type: column.logical_type, values });
            let ghost old_taken = taken.deep_view();
            taken.push(name);
            assert(taken.deep_view() =~= old_taken.push(name@));
            assert(extra_names(names_of(left@), ns2) == extra_names(names_of(left@), ns).push(name@));
            assert(taken.deep_view() =~= names_of(left@) + extra_names(names_of(left@), ns2));
            assert forall|m: int|
                0 <= m < p.len() + 1 implies #[trigger] columns@[left@.len() + m]@ == (ColumnView {
                name: extra_names(names_of(left@), ns2)[m],
                logical_type: right@[p.push(e)[m] as int].logical_type,
                values: pairs@.map_values(|q: RowPair| side_cell(right@[p.push(e)[m] as int], q.1)),
            }) by {
                lemma_extra_names_len(names_of(left@), ns);
                if m < p.len() {
                    assert(columns@[left@.len() + m] == old_columns[left@.len() + m]);
                    assert(extra_names(names_of(left@), ns2)[m] == extra_names(names_of(left@), ns)[m]);
                    assert(p.push(e)[m] == p[m]);
                } else {
                    assert(columns@[left@.len() + m]@.values =~= pairs@.map_values(
                        |q: RowPair| side_cell(right@[e as int], q.1),
                    ));
                }
            }
        }
        e += 1;
    }
    assert(positions_where(right@.len(), keep) =~= extras);
    assert(Seq::new(
        extras.len(),
        |q: int| right@[positions_where(right@.len(), keep)[q] as int].name,
    ) =~= extra_source);
    let r = DataTable { columns };
    assert(r@.len() == out_view.len());
    assert forall|k: int| 0 <= k < out_view.len() implies r@[k] == out_view[k] by {
        if k >= left@.len() {
            let m = k - left@.len();
            assert(columns@[left@.len() + m] == columns@[k]);
            assert(r@[k] =~= out_view[k]);
        }
    }
    assert(r@ =~= out_view);
    Ok(r)
}

} // verus!

verus! {

/// How many pairs have both sides, only a left side, only a right side.
pub open spec fn pair_counts(pairs: Seq<RowPair>) -> (nat, nat, nat)
    decreases pairs.len(),
{
    if pairs.len() == 0 {
        (0, 0, 0)
    } else {
        let (b, l, r) = pair_counts(pairs.drop_last());
        match pairs.last() {
            (Some(_), Some(_)) => (b + 1, l, r),
            (Some(_), None) => (b, l + 1, r),
            (None, Some(_)) => (b, l, r + 1),
            (None, None) => (b, l, r),
        }
    }
}

/// Counts the matched pairs, the left rows without a match and the right rows
/// without a match among the pairs of a join (see `pair_counts`).
pub fn join_counts(pairs: &Vec<RowPair>) -> (r: (usize, usize, usize))
    ensures
        (r.0 as nat, r.1 as nat, r.2 as nat) == pair_counts(pairs@),
{
    let mut both: usize = 0;
    let mut left_only: usize = 0;
    let mut right_only: usize = 0;
    let mut i: usize = 0;
    while i < pairs.len()
        invariant
            0 <= i <= pairs@.len(),
            (both as nat, left_only as nat, right_only as nat) == pair_counts(pairs@.take(i as int)),
            both + left_only + right_only <= i,
        decreases pairs.len() - i,
    {
        assert(pairs@.take(i + 1).drop_last() =~= pairs@.take(i as int));
        assert(pairs@.take(i + 1).last() == pairs@[i as int]);
        match pairs[i] {
            (Some(_), Some(_)) => both += 1,
            (Some(_), None) => left_only += 1,
            (None, Some(_)) => right_only += 1,
            (None, None) => {},
        }
        i += 1;
    }
    assert(pairs@.take(pairs@.len() as int) =~= pairs@);
    (both, left_only, right_only)
}

/// The right table's column names, in order, that are no join key of the
/// right table and that the left table also carries: the fields whose values
/// a join keeps from both sides.
pub open spec fn conflict_names(
    left: Seq<ColumnView>,
    right: Seq<ColumnView>,
    right_keys: Seq<Seq<char>>,
) -> Seq<Seq<char>> {
    names_of(right).filter(|n: Seq<char>| !right_keys.contains(n) && names_of(left).contains(n))
}

/// Lists the fields that both tables carry apart from the right join keys (see
/// `conflict_names`).
pub fn conflict_fields(left: &DataTable, right: &DataTable, right_keys: &Vec<String>) -> (r: Vec<String>)
    ensures
        r.deep_view() == conflict_names(left@, right@, right_keys.deep_view()),
{
    let left_names = left.column_names();
    let ghost keep = |n: Seq<char>| !right_keys.deep_view().contains(n) && names_of(left@).contains(n);
    let ghost rn = names_of(right@);
    let mut out: Vec<String> = Vec::new();
    let mut i: usize = 0;
    while i < right.columns.len()
        invariant
            0 <= i <= right.columns@.len(),
            rn == names_of(right@),
            left_names.deep_view() == names_of(left@),
            keep == (|n: Seq<char>| !right_keys.deep_view().contains(n) && names_of(left@).contains(n)),
            out.deep_view() == rn.take(i as int).filter(keep),
        decreases right.columns.len() - i,
    {
        let name = &right.columns[i].name;
        assert(rn[i as int] == name@);
        assert(rn.take(i + 1).drop_last() =~= rn.take(i as int));
        let wanted = !name_in(right_keys, name.as_str()) && name_in(&left_names, name.as_str());
        let ghost before = out.deep_view();
        if wanted {
            out.push(name.clone());
        }
        proof {
            rn.take(i as int).lemma_filter_push(name@, keep);
            assert(rn.take(i + 1) =~= rn.take(i as int).push(name@));
        }
        assert(out.deep_view() =~= rn.take(i + 1).filter(keep));
        i += 1;
    }
    assert(rn.take(rn.len() as int) =~= rn);
    out
}

} // verus!
