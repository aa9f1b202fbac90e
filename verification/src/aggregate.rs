//! Grouping rows by key and summarising each group; the most frequent value of a
//! column.

use vstd::prelude::*;
use crate::cells::CellEdit;
use crate::columns::{edit_column, edit_outcome};
use crate::cells::EditView;
use crate::error::TableError;
use crate::inference::{build_table_from_rows, table_from_rows};
use crate::join::{keys_of, row_keys};
use crate::model::{
    all_found, cell_at, column_position, find_column, find_columns, first_unknown, height_of,
    lemma_column_position, lemma_first_unknown, positions_of, ColumnView, DataTable, LogicalType,
};
use crate::number::{decimal_spec, usize_to_text};
use crate::options::AggregateFunction;
use crate::rows::{cell_blank, first_of_its_key, first_occurrences, positions_where};
use crate::sorting::{compare_texts, lemma_text_order, text_order};
use crate::text::{concat, is_blank, text_eq, trim, trim_spec};

verus! {

/// Name of the aggregate column.
pub open spec fn aggregate_name(target: Seq<char>, f: AggregateFunction) -> Seq<char> {
    match f {
        AggregateFunction::Count => "count"@,
        AggregateFunction::CountDistinct => "nunique_"@ + trim_spec(target),
        AggregateFunction::Sum => "sum_"@ + trim_spec(target),
        AggregateFunction::Mean => "mean_"@ + trim_spec(target),
        AggregateFunction::Max => "max_"@ + trim_spec(target),
        AggregateFunction::Min => "min_"@ + trim_spec(target),
    }
}

/// Name of the aggregate column (see `aggregate_name`).
pub fn aggregate_column_name(target_column: &str, function: AggregateFunction) -> (r: String)
    ensures
        r@ == aggregate_name(target_column@, function),
{
    let t = trim(target_column);
    let head = match function {
        AggregateFunction::Count => {
            proof {
                reveal_strlit("count");
            }
            return "count".to_owned();
        },
        AggregateFunction::CountDistinct => "nunique_",
        AggregateFunction::Sum => "sum_",
        AggregateFunction::Mean => "mean_",
        AggregateFunction::Max => "max_",
        AggregateFunction::Min => "min_",
    };
    proof {
        reveal_strlit("nunique_");
        reveal_strlit("sum_");
        reveal_strlit("mean_");
        reveal_strlit("max_");
        reveal_strlit("min_");
    }
    concat(head, t.as_str())
}

/// Texts in strictly ascending order.
pub open spec fn strictly_ascending(g: Seq<Seq<char>>) -> bool {
    forall|i: int, j: int| 0 <= i < j < g.len() ==> text_order(g[i], g[j]) < 0
}

/// `g` lists each distinct key once, in ascending order.
pub open spec fn lists_groups(g: Seq<Seq<char>>, keys: Seq<Seq<char>>) -> bool {
    &&& strictly_ascending(g)
    &&& forall|i: int| 0 <= i < keys.len() ==> g.contains(#[trigger] keys[i])
    &&& forall|i: int| 0 <= i < g.len() ==> keys.contains(#[trigger] g[i])
}

/// The group list of a key list is unique.
pub proof fn lemma_lists_groups_unique(g: Seq<Seq<char>>, h: Seq<Seq<char>>, keys: Seq<Seq<char>>)
    requires
        lists_groups(g, keys),
        lists_groups(h, keys),
    ensures
        g == h,
{
    let n = if g.len() <= h.len() {
        g.len()
    } else {
        h.len()
    };
    assert forall|k: int| 0 <= k < n implies g[k] == h[k] by {
        lemma_groups_agree(g, h, keys, k);
    }
    if g.len() != h.len() {
        if g.len() > h.len() {
            let x = g[h.len() as int];
            assert(keys.contains(x));
            let a = choose|a: int| 0 <= a < keys.len() && keys[a] == x;
            assert(h.contains(keys[a]));
            let j = choose|j: int| 0 <= j < h.len() && h[j] == x;
            assert(g[j] == h[j]);
            lemma_text_order(x, x, x);
            assert(text_order(g[j], g[h.len() as int]) < 0);
        } else {
            let x = h[g.len() as int];
            assert(keys.contains(x));
            let a = choose|a: int| 0 <= a < keys.len() && keys[a] == x;
            assert(g.contains(keys[a]));
            let j = choose|j: int| 0 <= j < g.len() && g[j] == x;
            assert(g[j] == h[j]);
            lemma_text_order(x, x, x);
            assert(text_order(h[j], h[g.len() as int]) < 0);
        }
    }
    assert(g =~= h);
}

proof fn lemma_groups_agree(g: Seq<Seq<char>>, h: Seq<Seq<char>>, keys: Seq<Seq<char>>, k: int)
    requires
        lists_groups(g, keys),
        lists_groups(h, keys),
        0 <= k < g.len(),
        k < h.len(),
    ensures
        g[k] == h[k],
    decreases k,
{
    assert forall|m: int| 0 <= m < k implies g[m] == h[m] by {
        lemma_groups_agree(g, h, keys, m);
    }
    if g[k] != h[k] {
        let x = h[k];
        let y = g[k];
        assert(keys.contains(x));
        assert(keys.contains(y));
        let a = choose|a: int| 0 <= a < keys.len() && keys[a] == x;
        let b = choose|b: int| 0 <= b < keys.len() && keys[b] == y;
        assert(g.contains(keys[a]));
        assert(h.contains(keys[b]));
        let i = choose|i: int| 0 <= i < g.len() && g[i] == x;
        let j = choose|j: int| 0 <= j < h.len() && h[j] == y;
        lemma_text_order(x, x, x);
        lemma_text_order(y, y, y);
        lemma_text_order(x, y, x);
        if i < k {
            assert(g[i] == h[i]);
            assert(text_order(h[i], h[k]) < 0);
        }
        if j < k {
            assert(h[j] == g[j]);
            assert(text_order(g[j], g[k]) < 0);
        }
        assert(text_order(g[k], g[i]) < 0);
        assert(text_order(h[k], h[j]) < 0);
    }
}

/// The distinct keys in ascending order.
pub fn group_list(keys: &Vec<String>) -> (r: Vec<String>)
    ensures
        lists_groups(r.deep_view(), keys.deep_view()),
{
    let ghost ks = keys.deep_view();
    let mut groups: Vec<String> = Vec::new();
    let mut i: usize = 0;
    while i < keys.len()
        invariant
            ks == keys.deep_view(),
            0 <= i <= ks.len(),
            strictly_ascending(groups.deep_view()),
            forall|k: int| 0 <= k < i ==> groups.deep_view().contains(#[trigger] ks[k]),
            forall|k: int|
                0 <= k < groups.deep_view().len() ==> ks.contains(#[trigger] groups.deep_view()[k]),
        decreases keys.len() - i,
    {
        let ghost g = groups.deep_view();
        let ghost x = ks[i as int];
        assert(keys@[i as int]@ == x);
        let mut pos: usize = 0;
        while pos < groups.len() && compare_texts(groups[pos].as_str(), keys[i].as_str()) < 0
            invariant
                g == groups.deep_view(),
                x == keys@[i as int]@,
                i < keys@.len(),
                0 <= pos <= g.len(),
                forall|k: int| 0 <= k < pos ==> text_order(g[k], x) < 0,
            decreases groups.len() - pos,
        {
            pos += 1;
        }
        let present = pos < groups.len() && text_eq(groups[pos].as_str(), keys[i].as_str());
        if !present {
            groups.insert(pos, keys[i].clone());
            proof {
                let now = groups.deep_view();
                assert(now =~= g.insert(pos as int, x));
                if pos < g.len() {
                    lemma_text_order(g[pos as int], x, g[pos as int]);
                    lemma_text_order(x, g[pos as int], x);
                    assert(text_order(x, g[pos as int]) < 0);
                }
                assert forall|a: int, b: int| 0 <= a < b < now.len() implies text_order(
                    now[a],
                    now[b],
                ) < 0 by {
                    lemma_text_order(now[a], now[b], now[a]);
                    if a < pos && b == pos {
                    } else if a == pos && b > pos {
                        assert(now[b] == g[b - 1]);
                        if b - 1 > pos {
                            lemma_text_order(x, g[pos as int], g[b - 1]);
                            lemma_text_order(g[b - 1], g[pos as int], x);
                        }
                    } else if a < pos && b > pos {
                        assert(now[a] == g[a]);
                        assert(now[b] == g[b - 1]);
                    } else if a > pos {
                        assert(now[a] == g[a - 1]);
                        assert(now[b] == g[b - 1]);
                    } else {
                        assert(now[a] == g[a]);
                        assert(now[b] == g[b]);
                    }
                }
                assert forall|k: int| 0 <= k < i + 1 implies now.contains(#[trigger] ks[k]) by {
                    if k == i {
                        assert(now[pos as int] == x);
                    } else {
                        assert(g.contains(ks[k]));
                        let a = choose|a: int| 0 <= a < g.len() && g[a] == ks[k];
                        if a < pos {
                            assert(now[a] == ks[k]);
                        } else {
                            assert(now[a + 1] == ks[k]);
                        }
                    }
                }
                assert forall|k: int| 0 <= k < now.len() implies ks.contains(#[trigger] now[k]) by {
                    if k < pos {
                        assert(now[k] == g[k]);
                    } else if k == pos {
                        assert(ks[i as int] == now[k]);
                    } else {
                        assert(now[k] == g[k - 1]);
                    }
                }
            }
        } else {
            proof {
                assert(g[pos as int] == x);
                assert(g.contains(ks[i as int]));
            }
        }
        i += 1;
    }
    groups
}

/// Whether row `i` has key `k`.
pub open spec fn key_is(keys: Seq<Seq<char>>, k: Seq<char>) -> spec_fn(int) -> bool {
    |i: int| keys[i] == k
}

/// Rows whose key is `k`, ascending.
pub open spec fn members_of(keys: Seq<Seq<char>>, k: Seq<char>) -> Seq<usize> {
    positions_where(keys.len(), key_is(keys, k))
}

/// Present, non-blank cells of a column at the given rows, in order.
pub open spec fn filled_at(c: ColumnView, rows: Seq<usize>) -> Seq<Seq<char>>
    decreases rows.len(),
{
    if rows.len() == 0 {
        Seq::empty()
    } else {
        let p = filled_at(c, rows.drop_last());
        match cell_at(c, rows.last() as int) {
            Some(s) => if trim_spec(s).len() > 0 {
                p.push(s)
            } else {
                p
            },
            None => p,
        }
    }
}

/// The greatest text (by `text_order`).
pub open spec fn text_max(v: Seq<Seq<char>>) -> Seq<char>
    decreases v.len(),
{
    if v.len() <= 1 {
        v[0]
    } else {
        let m = text_max(v.drop_last());
        if text_order(v.last(), m) > 0 {
            v.last()
        } else {
            m
        }
    }
}

/// The least text (by `text_order`).
pub open spec fn text_min(v: Seq<Seq<char>>) -> Seq<char>
    decreases v.len(),
{
    if v.len() <= 1 {
        v[0]
    } else {
        let m = text_min(v.drop_last());
        if text_order(v.last(), m) < 0 {
            v.last()
        } else {
            m
        }
    }
}

/// Number of distinct texts.
pub open spec fn distinct_count(v: Seq<Seq<char>>) -> nat {
    positions_where(v.len(), |k: int| first_of_its_key(v, k)).len()
}

/// The aggregate of a group (sum and mean are float arithmetic and not here).
pub open spec fn aggregate_value(
    t: Seq<ColumnView>,
    members: Seq<usize>,
    target: Option<int>,
    f: AggregateFunction,
) -> Option<Seq<char>> {
    match f {
        AggregateFunction::Count => Some(decimal_spec(members.len())),
        _ => match target {
            None => None,
            Some(c) => {
                let vals = filled_at(t[c], members);
                match f {
                    AggregateFunction::CountDistinct => Some(decimal_spec(distinct_count(vals))),
                    AggregateFunction::Max => if vals.len() == 0 {
                        None
                    } else {
                        Some(text_max(vals))
                    },
                    AggregateFunction::Min => if vals.len() == 0 {
                        None
                    } else {
                        Some(text_min(vals))
                    },
                    _ => None,
                }
            },
        },
    }
}

/// Cells of the given columns in row `row`, then the aggregate.
pub open spec fn group_row(
    t: Seq<ColumnView>,
    gidx: Seq<usize>,
    members: Seq<usize>,
    target: Option<int>,
    f: AggregateFunction,
) -> Seq<Option<Seq<char>>> {
    Seq::new(gidx.len(), |c: int| cell_at(t[gidx[c] as int], members[0] as int)).push(
        aggregate_value(t, members, target, f),
    )
}

/// Type of the aggregate column.
pub open spec fn aggregate_type(t: Seq<ColumnView>, target: Option<int>, f: AggregateFunction) -> LogicalType {
    match f {
        AggregateFunction::Count | AggregateFunction::CountDistinct => LogicalType::Integer,
        AggregateFunction::Mean | AggregateFunction::Sum => LogicalType::Float,
        _ => match target {
            Some(c) => t[c].logical_type,
            None => LogicalType::Text,
        },
    }
}

/// The summary table: one row per group in `g`.
pub open spec fn aggregated(
    t: Seq<ColumnView>,
    group_names: Seq<Seq<char>>,
    target: Option<int>,
    target_name: Seq<char>,
    f: AggregateFunction,
    g: Seq<Seq<char>>,
) -> Seq<ColumnView> {
    let gidx = positions_of(t, group_names);
    let keys = row_keys(t, gidx);
    table_from_rows(
        group_names.push(aggregate_name(target_name, f)),
        Seq::new(gidx.len(), |c: int| t[gidx[c] as int].logical_type).push(
            aggregate_type(t, target, f),
        ),
        Seq::new(g.len(), |k: int| group_row(t, gidx, members_of(keys, g[k]), target, f)),
    )
}

/// The column an aggregate reads: none for a count without a target.
pub open spec fn aggregate_target(
    t: Seq<ColumnView>,
    target: Seq<char>,
    f: AggregateFunction,
) -> Option<Option<int>> {
    if f == AggregateFunction::Count && trim_spec(target).len() == 0 {
        Some(None)
    } else {
        match column_position(t, trim_spec(target)) {
            Some(c) => Some(Some(c)),
            None => None,
        }
    }
}

proof fn lemma_filled_step(c: ColumnView, rows: Seq<usize>, k: int)
    requires
        0 <= k < rows.len(),
    ensures
        rows.take(k + 1).drop_last() == rows.take(k),
        rows.take(k + 1).last() == rows[k],
{
    assert(rows.take(k + 1).drop_last() =~= rows.take(k));
}

proof fn lemma_text_max_step(v: Seq<Seq<char>>, k: int)
    requires
        1 <= k < v.len(),
    ensures
        text_max(v.take(k + 1)) == if text_order(v[k], text_max(v.take(k))) > 0 {
            v[k]
        } else {
            text_max(v.take(k))
        },
        text_min(v.take(k + 1)) == if text_order(v[k], text_min(v.take(k))) < 0 {
            v[k]
        } else {
            text_min(v.take(k))
        },
{
    assert(v.take(k + 1).drop_last() =~= v.take(k));
}

/// The aggregate of one group.
fn compute_aggregate_value(
    table: &DataTable,
    members: &Vec<usize>,
    target: Option<usize>,
    function: AggregateFunction,
) -> (r: Option<String>)
    requires
        target matches Some(c) ==> (c as int) < table@.len(),
        function != AggregateFunction::Sum,
        function != AggregateFunction::Mean,
    ensures
        r.deep_view() == aggregate_value(
            table@,
            members@,
            match target {
                Some(c) => Some(c as int),
                None => None,
            },
            function,
        ),
{
    if function == AggregateFunction::Count {
        return Some(usize_to_text(members.len()));
    }
    let c = match target {
        Some(c) => c,
        None => return None,
    };
    let column = &table.columns[c];
    let mut vals: Vec<String> = Vec::new();
    let mut k: usize = 0;
    while k < members.len()
        invariant
            column@ == table@[c as int],
            0 <= k <= members@.len(),
            vals.deep_view() == filled_at(column@, members@.take(k as int)),
        decreases members.len() - k,
    {
        proof {
            lemma_filled_step(column@, members@, k as int);
        }
        let i = members[k];
        if i < column.values.len() {
            match &column.values[i] {
                Some(s) => if !is_blank(s.as_str()) {
                    let ghost before = vals.deep_view();
                    vals.push(s.clone());
                    assert(vals.deep_view() =~= before.push(s@));
                },
                None => {},
            }
        }
        k += 1;
    }
    assert(members@.take(members@.len() as int) =~= members@);
    let ghost v = vals.deep_view();
    if function == AggregateFunction::CountDistinct {
        let firsts = first_occurrences(&vals);
        return Some(usize_to_text(firsts.len()));
    }
    if vals.len() == 0 {
        return None;
    }
    let mut best: usize = 0;
    let mut j: usize = 1;
    let want_max = function == AggregateFunction::Max;
    assert(v.take(1) =~= seq![v[0]]);
    while j < vals.len()
        invariant
            v == vals.deep_view(),
            1 <= j <= v.len(),
            best < v.len(),
            want_max ==> v[best as int] == text_max(v.take(j as int)),
            !want_max ==> v[best as int] == text_min(v.take(j as int)),
        decreases vals.len() - j,
    {
        proof {
            lemma_text_max_step(v, j as int);
        }
        let o = compare_texts(vals[j].as_str(), vals[best].as_str());
        if (want_max && o > 0) || (!want_max && o < 0) {
            best = j;
        }
        j += 1;
    }
    assert(v.take(v.len() as int) =~= v);
    Some(vals[best].clone())
}

/// The outcome of grouping and aggregating.
pub open spec fn group_outcome(
    t: Seq<ColumnView>,
    names: Seq<Seq<char>>,
    target: Seq<char>,
    f: AggregateFunction,
    r: Result<DataTable, TableError>,
) -> bool {
    if names.len() == 0 {
        r == Err::<DataTable, TableError>(TableError::EmptyColumnList)
    } else if !all_found(t, names) {
        r matches Err(TableError::ColumnNotFound(n)) && first_unknown(t, names) matches Some(k)
            && n@ == names[k]
    } else {
        match aggregate_target(t, target, f) {
            None => r matches Err(TableError::ColumnNotFound(n)) && n@ == trim_spec(target),
            Some(tc) => if f == AggregateFunction::Sum || f == AggregateFunction::Mean {
                r == Err::<DataTable, TableError>(TableError::FloatArithmetic)
            } else {
                r matches Ok(out) && exists|g: Seq<Seq<char>>|
                    lists_groups(g, row_keys(t, positions_of(t, names))) && out@ == aggregated(
                        t,
                        names,
                        tc,
                        target,
                        f,
                        g,
                    )
            },
        }
    }
}

/// Groups rows by the cells of `group_columns` and summarises each group in one
/// row: the group cells of its first row, then the aggregate. Groups come in
/// ascending key order. Sums and means are float arithmetic, left to
/// floating-point code.
pub fn group_aggregate(
    table: &DataTable,
    group_columns: &Vec<String>,
    target_column: &str,
    function: AggregateFunction,
) -> (r: Result<DataTable, TableError>)
    ensures
        group_outcome(table@, group_columns.deep_view(), target_column@, function, r),
{
    if group_columns.len() == 0 {
        return Err(TableError::EmptyColumnList);
    }
    let gidx = match find_columns(table, group_columns) {
        Ok(v) => v,
        Err(e) => {
            proof {
                lemma_first_unknown(table@, group_columns.deep_view());
            }
            return Err(e);
        },
    };
    proof {
        assert forall|k: int| 0 <= k < gidx@.len() implies (gidx@[k] as int) < table@.len() by {
            lemma_column_position(table@, group_columns.deep_view()[k]);
            assert(column_position(table@, group_columns.deep_view()[k]) is Some);
        }
    }
    let trimmed = trim(target_column);
    let target: Option<usize> = if function == AggregateFunction::Count
        && trimmed.as_str().is_empty() {
        None
    } else {
        match find_column(table, trimmed.as_str()) {
            Some(c) => {
                proof {
                    lemma_column_position(table@, trimmed@);
                }
                Some(c)
            },
            None => return Err(TableError::ColumnNotFound(trimmed)),
        }
    };
    if function == AggregateFunction::Sum || function == AggregateFunction::Mean {
        return Err(TableError::FloatArithmetic);
    }
    let ghost tv: Option<int> = match target {
        Some(c) => Some(c as int),
        None => None,
    };
    let keys = keys_of(table, &gidx);
    let groups = group_list(&keys);
    let ghost ks = keys.deep_view();
    let ghost g = groups.deep_view();
    let mut rows: Vec<Vec<Option<String>>> = Vec::new();
    let mut k: usize = 0;
    while k < groups.len()
        invariant
            ks == keys.deep_view(),
            g == groups.deep_view(),
            lists_groups(g, ks),
            forall|m: int| 0 <= m < gidx@.len() ==> (gidx@[m] as int) < table@.len(),
            target matches Some(c) ==> (c as int) < table@.len(),
            tv == (match target {
                Some(c) => Some(c as int),
                None => None,
            }),
            function != AggregateFunction::Sum,
            function != AggregateFunction::Mean,
            0 <= k <= g.len(),
            rows@.len() == k,
            forall|q: int|
                0 <= q < k ==> #[trigger] rows@[q].deep_view() == group_row(
                    table@,
                    gidx@,
                    members_of(ks, g[q]),
                    tv,
                    function,
                ),
        decreases groups.len() - k,
    {
        let ghost keep = key_is(ks, g[k as int]);
        let mut members: Vec<usize> = Vec::new();
        let mut i: usize = 0;
        while i < keys.len()
            invariant
                ks == keys.deep_view(),
                g == groups.deep_view(),
                k < g.len(),
                keep == key_is(ks, g[k as int]),
                0 <= i <= ks.len(),
                members@ == positions_where(i as nat, keep),
            decreases keys.len() - i,
        {
            let ghost before = members@;
            if text_eq(keys[i].as_str(), groups[k].as_str()) {
                assert(ks[i as int] == keys@[i as int]@);
                members.push(i);
            } else {
                assert(ks[i as int] == keys@[i as int]@);
            }
            assert(positions_where((i + 1) as nat, keep) == if keep(i as int) {
                before.push(i)
            } else {
                before
            });
            i += 1;
        }
        assert(members@ == members_of(ks, g[k as int]));
        proof {
            assert(ks.contains(g[k as int]));
            let a = choose|a: int| 0 <= a < ks.len() && ks[a] == g[k as int];
            lemma_members_nonempty(ks, g[k as int], a);
        }
        let first = members[0];
        let mut row: Vec<Option<String>> = Vec::new();
        let mut c: usize = 0;
        while c < gidx.len()
            invariant
                forall|m: int| 0 <= m < gidx@.len() ==> (gidx@[m] as int) < table@.len(),
                0 <= c <= gidx@.len(),
                row@.len() == c,
                forall|m: int|
                    0 <= m < c ==> #[trigger] row@[m].deep_view() == cell_at(
                        table@[gidx@[m] as int],
                        first as int,
                    ),
            decreases gidx.len() - c,
        {
            let column = &table.columns[gidx[c]];
            if first < column.values.len() {
                row.push(crate::model::copy_cell(&column.values[first]));
            } else {
                row.push(None);
            }
            c += 1;
        }
        let value = compute_aggregate_value(table, &members, target, function);
        let ghost before_row = row.deep_view();
        row.push(value);
        assert(row.deep_view() =~= group_row(table@, gidx@, members@, tv, function));
        rows.push(row);
        k += 1;
    }
    let mut headers: Vec<String> = Vec::new();
    let mut types: Vec<LogicalType> = Vec::new();
    let mut c: usize = 0;
    while c < group_columns.len()
        invariant
            gidx@.len() == group_columns@.len(),
            gidx@ == positions_of(table@, group_columns.deep_view()),
            forall|m: int| 0 <= m < gidx@.len() ==> (gidx@[m] as int) < table@.len(),
            0 <= c <= group_columns@.len(),
            headers.deep_view() == group_columns.deep_view().take(c as int),
            types@ == Seq::new(c as nat, |m: int| table@[gidx@[m] as int].logical_type),
        decreases group_columns.len() - c,
    {
        let ghost before = headers.deep_view();
        headers.push(group_columns[c].clone());
        assert(headers.deep_view() =~= before.push(group_columns@[c as int]@));
        assert(headers.deep_view() =~= group_columns.deep_view().take(c + 1));
        types.push(table.columns[gidx[c]].logical_type);
        assert(types@ =~= Seq::new((c + 1) as nat, |m: int| table@[gidx@[m] as int].logical_type));
        c += 1;
    }
    assert(group_columns.deep_view().take(group_columns@.len() as int) =~= group_columns.deep_view());
    let ghost base_headers = headers.deep_view();
    let agg_name = aggregate_column_name(target_column, function);
    let ghost agg_name_v = agg_name@;
    headers.push(agg_name);
    assert(headers.deep_view() =~= base_headers.push(agg_name_v));
    assert(rows.deep_view() =~= Seq::new(
        g.len(),
        |q: int| group_row(table@, gidx@, members_of(ks, g[q]), tv, function),
    ));
    let result_type = match function {
        AggregateFunction::Count | AggregateFunction::CountDistinct => LogicalType::Integer,
        _ => match target {
            Some(c) => table.columns[c].logical_type,
            None => LogicalType::Text,
        },
    };
    types.push(result_type);
    let out = build_table_from_rows(headers, types, rows);
    assert(out@ =~= aggregated(table@, group_columns.deep_view(), tv, target_column@, function, g));
    Ok(out)
}

proof fn lemma_members_nonempty(keys: Seq<Seq<char>>, k: Seq<char>, a: int)
    requires
        0 <= a < keys.len(),
        keys[a] == k,
    ensures
        members_of(keys, k).len() > 0,
{
    lemma_positions_where_has(keys.len(), key_is(keys, k), a);
}

/// A position that satisfies `keep` makes `positions_where` non-empty.
pub proof fn lemma_positions_where_has(n: nat, keep: spec_fn(int) -> bool, a: int)
    requires
        0 <= a < n,
        keep(a),
    ensures
        positions_where(n, keep).len() > 0,
    decreases n,
{
    if a < n - 1 {
        lemma_positions_where_has((n - 1) as nat, keep, a);
    }
}

/// `m` is the most frequent text of `vals`, the least such text on a tie.
pub open spec fn is_mode(m: Seq<char>, vals: Seq<Seq<char>>) -> bool {
    &&& vals.contains(m)
    &&& forall|i: int|
        0 <= i < vals.len() ==> {
            let c = crate::schema::count_in(vals, #[trigger] vals[i]);
            let cm = crate::schema::count_in(vals, m);
            c < cm || (c == cm && text_order(m, vals[i]) <= 0)
        }
}

/// The trimmed, non-empty texts of a column's present cells.
pub open spec fn samples(values: Seq<Option<Seq<char>>>) -> Seq<Seq<char>>
    decreases values.len(),
{
    if values.len() == 0 {
        Seq::empty()
    } else {
        let p = samples(values.drop_last());
        match values.last() {
            Some(s) => if trim_spec(s).len() > 0 {
                p.push(trim_spec(s))
            } else {
                p
            },
            None => p,
        }
    }
}

/// The samples of a column (see `samples`).
pub fn sample_texts(values: &Vec<Option<String>>) -> (r: Vec<String>)
    ensures
        r.deep_view() == samples(values.deep_view()),
{
    let mut out: Vec<String> = Vec::new();
    let mut i: usize = 0;
    while i < values.len()
        invariant
            0 <= i <= values@.len(),
            out.deep_view() == samples(values.deep_view().take(i as int)),
        decreases values.len() - i,
    {
        assert(values.deep_view().take(i + 1).drop_last() =~= values.deep_view().take(i as int));
        match &values[i] {
            Some(s) => {
                let t = trim(s.as_str());
                if !t.as_str().is_empty() {
                    let ghost before = out.deep_view();
                    out.push(t);
                    assert(out.deep_view() =~= before.push(trim_spec(s@)));
                }
            },
            None => {},
        }
        i += 1;
    }
    assert(values.deep_view().take(values@.len() as int) =~= values.deep_view());
    out
}

/// How often `x` occurs in `v`.
fn count_text(v: &Vec<String>, x: &String) -> (r: usize)
    ensures
        r == crate::schema::count_in(v.deep_view(), x@),
{
    let mut n: usize = 0;
    let mut i: usize = 0;
    while i < v.len()
        invariant
            0 <= i <= v@.len(),
            n == crate::schema::count_in(v.deep_view().take(i as int), x@),
            n <= i,
        decreases v.len() - i,
    {
        assert(v.deep_view().take(i + 1).drop_last() =~= v.deep_view().take(i as int));
        if text_eq(v[i].as_str(), x.as_str()) {
            n += 1;
        }
        i += 1;
    }
    assert(v.deep_view().take(v@.len() as int) =~= v.deep_view());
    n
}

/// The most frequent text, the least one on a tie.
pub fn mode_of(vals: &Vec<String>) -> (r: String)
    requires
        vals@.len() > 0,
    ensures
        is_mode(r@, vals.deep_view()),
{
    let ghost v = vals.deep_view();
    let mut best: usize = 0;
    let mut best_count = count_text(vals, &vals[0]);
    proof {
        lemma_text_order(v[0], v[0], v[0]);
    }
    let mut i: usize = 1;
    while i < vals.len()
        invariant
            v == vals.deep_view(),
            1 <= i <= v.len(),
            best < v.len(),
            best_count == crate::schema::count_in(v, v[best as int]),
            forall|k: int|
                0 <= k < i ==> {
                    let c = crate::schema::count_in(v, #[trigger] v[k]);
                    c < best_count || (c == best_count && text_order(v[best as int], v[k]) <= 0)
                },
        decreases vals.len() - i,
    {
        let c = count_text(vals, &vals[i]);
        let o = compare_texts(vals[i].as_str(), vals[best].as_str());
        proof {
            lemma_text_order(v[i as int], v[best as int], v[i as int]);
        }
        if c > best_count || (c == best_count && o < 0) {
            proof {
                assert forall|k: int| 0 <= k < i + 1 implies {
                    let ck = crate::schema::count_in(v, #[trigger] v[k]);
                    ck < c || (ck == c && text_order(v[i as int], v[k]) <= 0)
                } by {
                    lemma_text_order(v[i as int], v[best as int], v[k]);
                    lemma_text_order(v[i as int], v[i as int], v[i as int]);
                }
            }
            best = i;
            best_count = c;
        }
        i += 1;
    }
    assert(v.contains(v[best as int]));
    vals[best].clone()
}

/// The value that statistic filling writes (only the mode is computed here).
pub open spec fn statistic_fill(values: Seq<Option<Seq<char>>>, m: Seq<char>) -> bool {
    is_mode(m, samples(values))
}

/// The outcome of filling blank cells with a statistic.
pub open spec fn statistic_outcome(
    t: Seq<ColumnView>,
    column: Seq<char>,
    strategy: crate::options::StatisticFillStrategy,
    r: Result<DataTable, TableError>,
) -> bool {
    match column_position(t, column) {
        None => r matches Err(TableError::ColumnNotFound(n)) && n@ == column,
        Some(p) => if samples(t[p].values).len() == 0 {
            r == Err::<DataTable, TableError>(TableError::NoSamples)
        } else if strategy != crate::options::StatisticFillStrategy::Mode {
            r == Err::<DataTable, TableError>(TableError::FloatArithmetic)
        } else {
            exists|m: Seq<char>|
                statistic_fill(t[p].values, m) && edit_outcome(t, column, EditView::FillBlank(m), r)
        },
    }
}

/// Fills blank cells with the column's most frequent trimmed text (ties: the
/// least text). A column without samples is refused; mean and median are float
/// arithmetic, left to floating-point code.
pub fn fill_null_statistic(table: &DataTable, column: &str, strategy: crate::options::StatisticFillStrategy) -> (r: Result<
    DataTable,
    TableError,
>)
    ensures
        statistic_outcome(table@, column@, strategy, r),
{
    let pos = match find_column(table, column) {
        Some(p) => p,
        None => return Err(TableError::ColumnNotFound(column.to_owned())),
    };
    proof {
        lemma_column_position(table@, column@);
    }
    let vals = sample_texts(&table.columns[pos].values);
    if vals.len() == 0 {
        return Err(TableError::NoSamples);
    }
    if strategy != crate::options::StatisticFillStrategy::Mode {
        return Err(TableError::FloatArithmetic);
    }
    let m = mode_of(&vals);
    let ghost mv = m@;
    let e = CellEdit::FillBlank(m);
    let r = edit_column(table, column, &e);
    assert(statistic_fill(table@[pos as int].values, mv));
    r
}

/// The greatest and least texts of a non-empty list are among its texts, and
/// no text of the list lies above the greatest or below the least.
proof fn lemma_text_extremes(v: Seq<Seq<char>>)
    requires
        v.len() > 0,
    ensures
        v.contains(text_max(v)),
        v.contains(text_min(v)),
        forall|i: int|
            0 <= i < v.len() ==> text_order(#[trigger] v[i], text_max(v)) <= 0 && text_order(
                text_min(v),
                v[i],
            ) <= 0,
    decreases v.len(),
{
    if v.len() == 1 {
        crate::sorting::lemma_text_order(v[0], v[0], v[0]);
        assert(v[0] == v[0]);
    } else {
        let d = v.drop_last();
        lemma_text_extremes(d);
        let mx = text_max(d);
        let mn = text_min(d);
        crate::sorting::lemma_text_order(v.last(), mx, v.last());
        crate::sorting::lemma_text_order(v.last(), mn, v.last());
        crate::sorting::lemma_text_order(v.last(), v.last(), v.last());
        assert forall|i: int| 0 <= i < v.len() implies text_order(#[trigger] v[i], text_max(v)) <= 0
            && text_order(text_min(v), v[i]) <= 0 by {
            if i < v.len() - 1 {
                assert(v[i] == d[i]);
                crate::sorting::lemma_text_order(v[i], mx, v.last());
                crate::sorting::lemma_text_order(v.last(), mn, v[i]);
                crate::sorting::lemma_text_order(mn, v[i], v.last());
            }
        }
        let a = choose|k: int| 0 <= k < d.len() && d[k] == mx;
        let b = choose|k: int| 0 <= k < d.len() && d[k] == mn;
        assert(v[a] == mx);
        assert(v[b] == mn);
        assert(v[v.len() - 1] == v.last());
    }
}

/// The maximum of a group is one of the group's filled target cells and no
/// filled target cell of the group is greater by text order; the minimum is
/// one of them and no filled cell is smaller. A group without filled cells has
/// neither.
pub proof fn lemma_max_min_aggregate(t: Seq<ColumnView>, members: Seq<usize>, c: int)
    requires
        0 <= c < t.len(),
    ensures
        ({
            let vals = filled_at(t[c], members);
            let mx = aggregate_value(t, members, Some(c), AggregateFunction::Max);
            let mn = aggregate_value(t, members, Some(c), AggregateFunction::Min);
            &&& vals.len() == 0 ==> mx is None && mn is None
            &&& vals.len() > 0 ==> mx is Some && mn is Some && vals.contains(mx->0) && vals.contains(mn->0)
            &&& forall|i: int|
                0 <= i < vals.len() ==> text_order(#[trigger] vals[i], mx->0) <= 0 && text_order(
                    mn->0,
                    vals[i],
                ) <= 0
        }),
{
    let vals = filled_at(t[c], members);
    if vals.len() > 0 {
        lemma_text_extremes(vals);
    }
}

/// The filled cells at some rows are exactly the present, non-blank cells of
/// those rows.
proof fn lemma_filled_at_members(c: ColumnView, rows: Seq<usize>)
    ensures
        forall|k: int| 0 <= k < filled_at(c, rows).len() ==> exists|m: int|
            0 <= m < rows.len() && cell_at(c, rows[m] as int) == Some(#[trigger] filled_at(c, rows)[k])
                && trim_spec(filled_at(c, rows)[k]).len() > 0,
        forall|m: int|
            0 <= m < rows.len() && (#[trigger] cell_at(c, rows[m] as int)) is Some && trim_spec(
                cell_at(c, rows[m] as int)->0,
            ).len() > 0 ==> filled_at(c, rows).contains(cell_at(c, rows[m] as int)->0),
    decreases rows.len(),
{
    if rows.len() > 0 {
        let d = rows.drop_last();
        lemma_filled_at_members(c, d);
        let f = filled_at(c, rows);
        let g = filled_at(c, d);
        assert forall|m: int| 0 <= m < d.len() implies #[trigger] d[m] == rows[m] by {}
        assert forall|k: int| 0 <= k < f.len() implies exists|m: int|
            0 <= m < rows.len() && cell_at(c, rows[m] as int) == Some(#[trigger] f[k]) && trim_spec(
                f[k],
            ).len() > 0 by {
            if k < g.len() {
                assert(f[k] == g[k]);
                let m = choose|m: int|
                    0 <= m < d.len() && cell_at(c, d[m] as int) == Some(g[k]) && trim_spec(g[k]).len() > 0;
                assert(rows[m] == d[m]);
            } else {
                assert(cell_at(c, rows[rows.len() - 1] as int) == Some(f[k]));
            }
        }
        assert forall|m: int|
            0 <= m < rows.len() && (#[trigger] cell_at(c, rows[m] as int)) is Some && trim_spec(
                cell_at(c, rows[m] as int)->0,
            ).len() > 0 implies f.contains(cell_at(c, rows[m] as int)->0) by {
            if m < rows.len() - 1 {
                assert(rows[m] == d[m]);
                assert(g.contains(cell_at(c, d[m] as int)->0));
                let k = choose|k: int| 0 <= k < g.len() && g[k] == cell_at(c, d[m] as int)->0;
                assert(f[k] == g[k]);
            } else {
                assert(f[f.len() - 1] == cell_at(c, rows[m] as int)->0);
            }
        }
    }
}

/// Whether the `m`-th row of a group has a present, non-blank cell in `c`.
pub open spec fn filled_row(c: ColumnView, members: Seq<usize>, m: int) -> bool {
    cell_at(c, members[m] as int) is Some && trim_spec(cell_at(c, members[m] as int)->0).len() > 0
}

/// The maximum of a group's target cells, in terms of the group's rows: it is
/// the present, non-blank cell of one of the rows, and no row of the group has
/// a present, non-blank cell greater by text order; dually for the minimum. A
/// group whose rows have no such cell has neither.
pub proof fn lemma_max_min_of_rows(t: Seq<ColumnView>, members: Seq<usize>, c: int)
    requires
        0 <= c < t.len(),
    ensures
        ({
            let mx = aggregate_value(t, members, Some(c), AggregateFunction::Max);
            let mn = aggregate_value(t, members, Some(c), AggregateFunction::Min);
            &&& (exists|m: int| 0 <= m < members.len() && #[trigger] filled_row(t[c], members, m)) ==> {
                &&& mx is Some && mn is Some
                &&& exists|m: int|
                    0 <= m < members.len() && #[trigger] filled_row(t[c], members, m) && cell_at(
                        t[c],
                        members[m] as int,
                    ) == mx
                &&& exists|m: int|
                    0 <= m < members.len() && #[trigger] filled_row(t[c], members, m) && cell_at(
                        t[c],
                        members[m] as int,
                    ) == mn
                &&& forall|m: int|
                    0 <= m < members.len() && #[trigger] filled_row(t[c], members, m) ==> text_order(
                        cell_at(t[c], members[m] as int)->0,
                        mx->0,
                    ) <= 0 && text_order(mn->0, cell_at(t[c], members[m] as int)->0) <= 0
            }
            &&& !(exists|m: int| 0 <= m < members.len() && #[trigger] filled_row(t[c], members, m))
                ==> mx is None && mn is None
        }),
{
    let vals = filled_at(t[c], members);
    lemma_filled_at_members(t[c], members);
    lemma_max_min_aggregate(t, members, c);
    let mx = aggregate_value(t, members, Some(c), AggregateFunction::Max);
    let mn = aggregate_value(t, members, Some(c), AggregateFunction::Min);
    if exists|m: int| 0 <= m < members.len() && #[trigger] filled_row(t[c], members, m) {
        let m0 = choose|m: int| 0 <= m < members.len() && #[trigger] filled_row(t[c], members, m);
        assert(cell_at(t[c], members[m0] as int) is Some);
        assert(vals.contains(cell_at(t[c], members[m0] as int)->0));
        let kx = choose|k: int| 0 <= k < vals.len() && vals[k] == mx->0;
        let kn = choose|k: int| 0 <= k < vals.len() && vals[k] == mn->0;
        let wx = choose|m: int|
            0 <= m < members.len() && cell_at(t[c], members[m] as int) == Some(vals[kx]) && trim_spec(
                vals[kx],
            ).len() > 0;
        let wn = choose|m: int|
            0 <= m < members.len() && cell_at(t[c], members[m] as int) == Some(vals[kn]) && trim_spec(
                vals[kn],
            ).len() > 0;
        assert(filled_row(t[c], members, wx) && cell_at(t[c], members[wx] as int) == mx);
        assert(filled_row(t[c], members, wn) && cell_at(t[c], members[wn] as int) == mn);
        assert forall|m: int| 0 <= m < members.len() && #[trigger] filled_row(t[c], members, m) implies text_order(
            cell_at(t[c], members[m] as int)->0,
            mx->0,
        ) <= 0 && text_order(mn->0, cell_at(t[c], members[m] as int)->0) <= 0 by {
            assert(vals.contains(cell_at(t[c], members[m] as int)->0));
            let k = choose|k: int| 0 <= k < vals.len() && vals[k] == cell_at(t[c], members[m] as int)->0;
            assert(text_order(vals[k], mx->0) <= 0);
            assert(text_order(mn->0, vals[k]) <= 0);
        }
    } else {
        if vals.len() > 0 {
            let mm = choose|m: int|
                0 <= m < members.len() && cell_at(t[c], members[m] as int) == Some(vals[0]) && trim_spec(
                    vals[0],
                ).len() > 0;
            assert(filled_row(t[c], members, mm));
        }
    }
}

} // verus!
