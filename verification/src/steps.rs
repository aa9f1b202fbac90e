//! Steps that add derived columns to a table or reorder its rows by several
//! keys.

use vstd::prelude::*;
use crate::columns::append_column;
use crate::error::TableError;
use crate::expression::{expression_postfix, parse_expression};
use crate::model::{
    all_found, positions_of, cell_at, column_position, find_column, contains_column, find_columns, first_unknown, has_name, height_of,
    lemma_column_position, lemma_first_unknown, names_of, ColumnView, DataTable, LogicalType,
    TableColumn,
};
use crate::options::{CompareOperator, PriorityPlacement};
use crate::rows::{select_rows, cell_blank, cell_blank_exec, cell_contains, lemma_pick_len, positions_where, select_spec};
use crate::schema::{add_row_number_column, numbered_column};
use crate::sorting::{sorted_stably, KeyView};
use crate::text::{join_spec, join_texts, ascii_lower, contains, text_eq, to_ascii_lowercase, trim, trim_spec};
use crate::timecols::{column_keys, sort_by_column, sort_outcome};

verus! {

/// A text column named `target` (trimmed) that holds `value` in each of `t`'s
/// rows.
pub open spec fn constant_column(t: Seq<ColumnView>, target: Seq<char>, value: Seq<char>) -> ColumnView {
    ColumnView {
        name: trim_spec(target),
        logical_type: LogicalType::Text,
        values: Seq::new(height_of(t), |i: int| Some(value)),
    }
}

/// The outcome of adding a column that holds one value in every row.
pub open spec fn constant_outcome(
    t: Seq<ColumnView>,
    target: Seq<char>,
    value: Seq<char>,
    r: Result<DataTable, TableError>,
) -> bool {
    if trim_spec(target).len() == 0 {
        r == Err::<DataTable, TableError>(TableError::EmptyColumnName)
    } else if has_name(t, trim_spec(target)) {
        r matches Err(TableError::ColumnExists(n)) && n@ == trim_spec(target)
    } else {
        r matches Ok(out) && out@ == t.push(constant_column(t, target, value))
    }
}

/// Appends a text column `target` holding `value` in every row.
pub fn add_constant_column(table: &DataTable, target: &str, value: &str) -> (r: Result<
    DataTable,
    TableError,
>)
    ensures
        constant_outcome(table@, target@, value@, r),
{
    let name = trim(target);
    if name.as_str().is_empty() {
        return Err(TableError::EmptyColumnName);
    }
    if contains_column(table, name.as_str()) {
        return Err(TableError::ColumnExists(name));
    }
    let h = table.height();
    let mut values: Vec<Option<String>> = Vec::new();
    let mut i: usize = 0;
    while i < h
        invariant
            h == height_of(table@),
            0 <= i <= h,
            values@.len() == i,
            forall|k: int| 0 <= k < i ==> #[trigger] values@[k].deep_view() == Some(value@),
        decreases h - i,
    {
        values.push(Some(value.to_owned()));
        i += 1;
    }
    let col = TableColumn { name, logical_type: LogicalType::Text, values };
    assert(col@ =~= constant_column(table@, target@, value@));
    Ok(append_column(table, col))
}

/// The direction of the `i`-th sort key: ascending where no flag is given.
pub open spec fn ascending_at(asc: Seq<bool>, i: int) -> bool {
    if 0 <= i < asc.len() {
        asc[i]
    } else {
        true
    }
}

/// Whether every listed key column that exists reaches the table's height.
pub open spec fn keys_reach(t: Seq<ColumnView>, cols: Seq<Seq<char>>) -> bool {
    forall|k: int|
        0 <= k < cols.len() ==> ((#[trigger] column_position(t, cols[k])) matches Some(p)
            ==> t[p].values.len() >= height_of(t))
}

/// The outcome of sorting `t` stably by the keys `cols`, from the last key to
/// the first: the first key decides the order and each later key orders the
/// rows that all earlier keys leave tied. A float key is left to
/// floating-point code.
pub open spec fn sorted_by_keys(
    t: Seq<ColumnView>,
    cols: Seq<Seq<char>>,
    asc: Seq<bool>,
    r: Result<DataTable, TableError>,
) -> bool
    decreases cols.len(),
{
    if cols.len() == 0 {
        r matches Ok(out) && out@ == t
    } else {
        match column_position(t, cols.last()) {
            None => r matches Err(TableError::ColumnNotFound(n)) && n@ == cols.last(),
            Some(p) => if t[p].logical_type == LogicalType::Float {
                r == Err::<DataTable, TableError>(TableError::FloatArithmetic)
            } else {
                sorted_by_keys(
                    select_spec(t, stable_order(t[p], height_of(t), ascending_at(asc, cols.len() - 1))),
                    cols.drop_last(),
                    asc,
                    r,
                )
            },
        }
    }
}

/// The stable sorting order of a column's first `n` cells (it is unique, see
/// `lemma_sorted_stably_unique`).
pub open spec fn stable_order(c: ColumnView, n: nat, asc: bool) -> Seq<usize> {
    choose|perm: Seq<usize>| sorted_stably(perm, column_keys(c, n), asc)
}

/// Reordering rows by a stable sort keeps the columns' names and types, and
/// every column that reached the height holds exactly the height's cells.
pub proof fn lemma_reordered_shape(t: Seq<ColumnView>, perm: Seq<usize>, keys: Seq<KeyView>, asc: bool)
    requires
        sorted_stably(perm, keys, asc),
        keys.len() == height_of(t),
    ensures
        select_spec(t, perm).len() == t.len(),
        names_of(select_spec(t, perm)) == names_of(t),
        height_of(select_spec(t, perm)) == height_of(t),
        forall|c: int|
            0 <= c < t.len() ==> #[trigger] select_spec(t, perm)[c].logical_type == t[c].logical_type,
        forall|c: int|
            0 <= c < t.len() && t[c].values.len() >= height_of(t) ==> #[trigger] select_spec(
                t,
                perm,
            )[c].values.len() == height_of(t),
{
    let s = select_spec(t, perm);
    assert(names_of(s) =~= names_of(t));
    assert forall|c: int| 0 <= c < t.len() && t[c].values.len() >= height_of(t) implies #[trigger] s[c].values.len()
        == height_of(t) by {
        assert forall|m: int| 0 <= m < perm.len() implies (#[trigger] perm[m] as int) < t[c].values.len() by {}
        lemma_pick_len(t[c].values, perm);
    }
    if t.len() > 0 {
        assert(s[0].values.len() == height_of(t));
    }
}

/// Sorts the rows stably by several key columns; the first key decides first
/// and each later key breaks the ties left by the ones before it.
pub fn sort_by_keys(table: &DataTable, columns: &Vec<String>, ascending: &Vec<bool>) -> (r: Result<
    DataTable,
    TableError,
>)
    requires
        keys_reach(table@, columns.deep_view()),
    ensures
        sorted_by_keys(table@, columns.deep_view(), ascending@, r),
{
    let ghost cols = columns.deep_view();
    let mut current = table.duplicate();
    let mut i: usize = columns.len();
    assert(cols.take(cols.len() as int) =~= cols);
    while i > 0
        invariant
            0 <= i <= cols.len(),
            cols == columns.deep_view(),
            keys_reach(current@, cols),
            forall|r: Result<DataTable, TableError>|
                #[trigger] sorted_by_keys(current@, cols.take(i as int), ascending@, r)
                    ==> sorted_by_keys(table@, cols, ascending@, r),
        decreases i,
    {
        let k = i - 1;
        let a = if k < ascending.len() {
            ascending[k]
        } else {
            true
        };
        let ghost pre = cols.take(i as int);
        assert(pre.last() == cols[k as int]);
        assert(pre.drop_last() =~= cols.take(k as int));
        assert(a == ascending_at(ascending@, pre.len() - 1));
        assert(columns[k as int]@ == cols[k as int]);
        let res = sort_by_column(&current, columns[k].as_str(), a);
        match res {
            Err(e) => {
                assert(sorted_by_keys(current@, pre, ascending@, Err(e)));
                return Err(e);
            },
            Ok(next) => {
                let ghost cur = current@;
                proof {
                    let p = column_position(cur, cols[k as int]).unwrap();
                    lemma_column_position(cur, cols[k as int]);
                    let perm = choose|perm: Seq<usize>|
                        sorted_stably(perm, column_keys(cur[p], height_of(cur)), a) && next@
                            == select_spec(cur, perm);
                    lemma_reordered_shape(cur, perm, column_keys(cur[p], height_of(cur)), a);
                    crate::sorting::lemma_sorted_stably_unique(
                        perm,
                        stable_order(cur[p], height_of(cur), a),
                        column_keys(cur[p], height_of(cur)),
                        a,
                    );
                    assert(column_position(cur, pre.last()) == Some(p));
                    assert forall|r: Result<DataTable, TableError>|
                        #[trigger] sorted_by_keys(next@, cols.take(k as int), ascending@, r)
                            implies sorted_by_keys(table@, cols, ascending@, r) by {
                        assert(sorted_by_keys(cur, pre, ascending@, r));
                    }
                    assert forall|m: int| 0 <= m < cols.len() implies ((#[trigger] column_position(
                        next@,
                        cols[m],
                    )) matches Some(q) ==> next@[q].values.len() >= height_of(next@)) by {
                        assert(column_position(next@, cols[m]) == column_position(cur, cols[m]));
                        assert(column_position(cur, cols[m]) matches Some(q) ==> cur[q].values.len() >= height_of(cur));
                        lemma_column_position(cur, cols[m]);
                    }
                }
                current = next;
            },
        }
        i = k;
    }
    assert(cols.take(0) =~= Seq::<Seq<char>>::empty());
    assert(sorted_by_keys(current@, cols.take(0), ascending@, Ok(current)));
    Ok(current)
}

/// The outcome of sorting by several keys: a key list is needed and every key
/// must name a column (the first unknown one is reported); then the rows are
/// sorted as `sorted_by_keys` says.
pub open spec fn multi_sort_outcome(
    t: Seq<ColumnView>,
    cols: Seq<Seq<char>>,
    asc: Seq<bool>,
    r: Result<DataTable, TableError>,
) -> bool {
    if cols.len() == 0 {
        r == Err::<DataTable, TableError>(TableError::EmptyColumnList)
    } else if !all_found(t, cols) {
        r matches Err(TableError::ColumnNotFound(n)) && first_unknown(t, cols) matches Some(k) && n@
            == cols[k]
    } else {
        sorted_by_keys(t, cols, asc, r)
    }
}

/// Sorts the rows by several keys (see `multi_sort_outcome`).
pub fn multi_sort(table: &DataTable, columns: &Vec<String>, ascending: &Vec<bool>) -> (r: Result<
    DataTable,
    TableError,
>)
    requires
        keys_reach(table@, columns.deep_view()),
    ensures
        multi_sort_outcome(table@, columns.deep_view(), ascending@, r),
{
    if columns.len() == 0 {
        return Err(TableError::EmptyColumnList);
    }
    match find_columns(table, columns) {
        Err(e) => {
            proof {
                lemma_first_unknown(table@, columns.deep_view());
            }
            Err(e)
        },
        Ok(_) => sort_by_keys(table, columns, ascending),
    }
}

/// The table with a rank column: the rows sorted by the keys and numbered from
/// 1 in that order.
pub open spec fn ranked(s: Result<DataTable, TableError>, target: Seq<char>, r: Result<DataTable, TableError>) -> bool {
    match s {
        Ok(st) => r matches Ok(out) && out@ == st@.push(numbered_column(st@, target, 1)),
        Err(e) => r == Err::<DataTable, TableError>(e),
    }
}

/// The outcome of adding a rank column `target` by the keys `cols`.
pub open spec fn rank_outcome(
    t: Seq<ColumnView>,
    target: Seq<char>,
    cols: Seq<Seq<char>>,
    asc: Seq<bool>,
    r: Result<DataTable, TableError>,
) -> bool {
    if trim_spec(target).len() == 0 {
        r == Err::<DataTable, TableError>(TableError::EmptyColumnName)
    } else if has_name(t, trim_spec(target)) {
        r matches Err(TableError::ColumnExists(n)) && n@ == trim_spec(target)
    } else {
        exists|s: Result<DataTable, TableError>| #[trigger] multi_sort_outcome(t, cols, asc, s) && ranked(s, target, r)
    }
}

/// Sorts the rows by the keys and appends an integer column `target` that ranks
/// them from 1 in that order.
pub fn add_rank_column(table: &DataTable, target: &str, columns: &Vec<String>, ascending: &Vec<bool>) -> (r: Result<
    DataTable,
    TableError,
>)
    requires
        keys_reach(table@, columns.deep_view()),
    ensures
        rank_outcome(table@, target@, columns.deep_view(), ascending@, r),
{
    let name = trim(target);
    if name.as_str().is_empty() {
        return Err(TableError::EmptyColumnName);
    }
    if contains_column(table, name.as_str()) {
        return Err(TableError::ColumnExists(name));
    }
    let s = multi_sort(table, columns, ascending);
    match s {
        Err(e) => {
            assert(ranked(Err(e), target@, Err(e)));
            Err(e)
        },
        Ok(sorted) => {
            let h = sorted.height();
            let r = add_row_number_column(&sorted, target, 1);
            proof {
                assert(names_of(sorted@) == names_of(table@)) by {
                    lemma_sorted_names(table@, columns.deep_view(), ascending@, sorted);
                }
                lemma_column_position(sorted@, trim_spec(target@));
                lemma_column_position(table@, trim_spec(target@));
                assert(column_position(sorted@, trim_spec(target@)) == column_position(table@, trim_spec(target@)));
                assert(ranked(Ok(sorted), target@, r));
            }
            r
        },
    }
}

/// Sorting by keys keeps the columns' names.
pub proof fn lemma_sorted_names(
    t: Seq<ColumnView>,
    cols: Seq<Seq<char>>,
    asc: Seq<bool>,
    out: DataTable,
)
    requires
        sorted_by_keys(t, cols, asc, Ok(out)),
    ensures
        names_of(out@) == names_of(t),
    decreases cols.len(),
{
    if cols.len() > 0 {
        let p = column_position(t, cols.last()).unwrap();
        let a = ascending_at(asc, cols.len() - 1);
        let perm = stable_order(t[p], height_of(t), a);
        let s = select_spec(t, perm);
        assert(names_of(s) =~= names_of(t));
        lemma_sorted_names(s, cols.drop_last(), asc, out);
    }
}

/// A cell's trimmed text; a missing cell reads as empty text.
pub open spec fn cell_text(v: Option<Seq<char>>) -> Seq<char> {
    match v {
        Some(s) => trim_spec(s),
        None => Seq::empty(),
    }
}

/// Whether an operator orders numbers (such conditions are left to
/// floating-point code).
pub open spec fn orders_numbers(op: CompareOperator) -> bool {
    op == CompareOperator::Greater || op == CompareOperator::GreaterEqual || op
        == CompareOperator::Less || op == CompareOperator::LessEqual
}

/// Whether a cell meets a text condition: its trimmed text equals, or differs
/// from, the trimmed value; it holds the trimmed value ignoring ASCII case; or
/// it is blank.
pub open spec fn cell_meets(v: Option<Seq<char>>, op: CompareOperator, value: Seq<char>) -> bool {
    match op {
        CompareOperator::Eq => cell_text(v) == trim_spec(value),
        CompareOperator::NotEq => cell_text(v) != trim_spec(value),
        CompareOperator::Contains => cell_contains(v, ascii_lower(trim_spec(value))),
        CompareOperator::IsEmpty => cell_blank(v),
        _ => false,
    }
}

/// Whether a cell meets a text condition (see `cell_meets`); `wanted` is the
/// trimmed value and `needle` its ASCII lower case.
fn cell_meets_exec(v: &Option<String>, op: CompareOperator, wanted: &str, needle: &str) -> (r: bool)
    requires
        !orders_numbers(op),
        wanted@ == trim_spec(wanted@),
        needle@ == ascii_lower(wanted@),
    ensures
        r == cell_meets(v.deep_view(), op, wanted@),
{
    match op {
        CompareOperator::Eq | CompareOperator::NotEq => {
            let same = match v {
                Some(s) => {
                    let t = trim(s.as_str());
                    text_eq(t.as_str(), wanted)
                },
                None => {
                    assert(wanted@.len() == 0 ==> wanted@ =~= Seq::<char>::empty());
                    wanted.is_empty()
                },
            };
            if op == CompareOperator::Eq {
                same
            } else {
                !same
            }
        },
        CompareOperator::Contains => match v {
            Some(s) => {
                let lower = to_ascii_lowercase(s.as_str());
                contains(lower.as_str(), needle)
            },
            None => false,
        },
        _ => cell_blank_exec(v),
    }
}

/// The column that a condition fills: `yes` in the rows whose cell of
/// column `p` meets the condition, `no` in the others.
pub open spec fn conditional_column(
    t: Seq<ColumnView>,
    target: Seq<char>,
    p: int,
    op: CompareOperator,
    value: Seq<char>,
    yes: Seq<char>,
    no: Seq<char>,
) -> ColumnView {
    ColumnView {
        name: trim_spec(target),
        logical_type: LogicalType::Text,
        values: Seq::new(
            height_of(t),
            |i: int|
                Some(
                    if cell_meets(cell_at(t[p], i), op, value) {
                        yes
                    } else {
                        no
                    },
                ),
        ),
    }
}

/// The outcome of adding a column that tells, row by row, whether a cell of
/// `source` meets a condition.
pub open spec fn conditional_outcome(
    t: Seq<ColumnView>,
    target: Seq<char>,
    source: Seq<char>,
    op: CompareOperator,
    value: Seq<char>,
    yes: Seq<char>,
    no: Seq<char>,
    r: Result<DataTable, TableError>,
) -> bool {
    if trim_spec(target).len() == 0 {
        r == Err::<DataTable, TableError>(TableError::EmptyColumnName)
    } else if has_name(t, trim_spec(target)) {
        r matches Err(TableError::ColumnExists(n)) && n@ == trim_spec(target)
    } else {
        match column_position(t, source) {
            None => r matches Err(TableError::ColumnNotFound(n)) && n@ == source,
            Some(p) => if orders_numbers(op) {
                r == Err::<DataTable, TableError>(TableError::FloatArithmetic)
            } else {
                r matches Ok(out) && out@ == t.push(
                    conditional_column(t, target, p, op, value, yes, no),
                )
            },
        }
    }
}

/// Appends a text column `target` holding `yes` where the cell of `source`
/// meets the condition and `no` elsewhere.
pub fn add_conditional_column(
    table: &DataTable,
    target: &str,
    source: &str,
    op: CompareOperator,
    value: &str,
    yes: &str,
    no: &str,
) -> (r: Result<DataTable, TableError>)
    ensures
        conditional_outcome(table@, target@, source@, op, value@, yes@, no@, r),
{
    let name = trim(target);
    if name.as_str().is_empty() {
        return Err(TableError::EmptyColumnName);
    }
    if contains_column(table, name.as_str()) {
        return Err(TableError::ColumnExists(name));
    }
    let p = match find_column(table, source) {
        Some(p) => p,
        None => return Err(TableError::ColumnNotFound(source.to_owned())),
    };
    proof {
        lemma_column_position(table@, source@);
    }
    if op == CompareOperator::Greater || op == CompareOperator::GreaterEqual || op
        == CompareOperator::Less || op == CompareOperator::LessEqual {
        return Err(TableError::FloatArithmetic);
    }
    let wanted = trim(value);
    let needle = to_ascii_lowercase(wanted.as_str());
    proof {
        crate::text::lemma_trim_idempotent(value@);
    }
    let col = &table.columns[p];
    let h = table.height();
    let mut values: Vec<Option<String>> = Vec::new();
    let mut i: usize = 0;
    while i < h
        invariant
            h == height_of(table@),
            col@ == table@[p as int],
            wanted@ == trim_spec(value@),
            wanted@ == trim_spec(wanted@),
            needle@ == ascii_lower(wanted@),
            !orders_numbers(op),
            0 <= i <= h,
            values@.len() == i,
            forall|k: int|
                0 <= k < i ==> #[trigger] values@[k].deep_view() == Some(
                    if cell_meets(cell_at(table@[p as int], k), op, value@) {
                        yes@
                    } else {
                        no@
                    },
                ),
        decreases h - i,
    {
        let none: Option<String> = None;
        let cell = if i < col.values.len() {
            &col.values[i]
        } else {
            &none
        };
        assert(cell.deep_view() == cell_at(col@, i as int));
        let hit = cell_meets_exec(cell, op, wanted.as_str(), needle.as_str());
        if hit {
            values.push(Some(yes.to_owned()));
        } else {
            values.push(Some(no.to_owned()));
        }
        i += 1;
    }
    let out = TableColumn { name, logical_type: LogicalType::Text, values };
    assert(out@ =~= conditional_column(table@, target@, p as int, op, value@, yes@, no@));
    Ok(append_column(table, out))
}

/// Whether row `i` of column `p` meets the condition, or (with `want` false)
/// does not.
pub open spec fn meets_at(
    t: Seq<ColumnView>,
    p: int,
    op: CompareOperator,
    value: Seq<char>,
    want: bool,
) -> spec_fn(int) -> bool {
    |i: int| cell_meets(cell_at(t[p], i), op, value) == want
}

/// The rows of `t` with those whose cell of `column` meets the condition
/// moved before (placement `First`) or after (`Last`) the others, each group
/// in its former order.
pub open spec fn partitioned(
    t: Seq<ColumnView>,
    column: Seq<char>,
    op: CompareOperator,
    value: Seq<char>,
    placement: PriorityPlacement,
) -> Seq<ColumnView> {
    let p = column_position(t, column).unwrap();
    let hits = positions_where(height_of(t), meets_at(t, p, op, value, true));
    let rest = positions_where(height_of(t), meets_at(t, p, op, value, false));
    select_spec(
        t,
        if placement == PriorityPlacement::First {
            hits + rest
        } else {
            rest + hits
        },
    )
}

/// The table after the secondary sort `s`, partitioned by the condition.
pub open spec fn prioritized(
    s: Result<DataTable, TableError>,
    column: Seq<char>,
    op: CompareOperator,
    value: Seq<char>,
    placement: PriorityPlacement,
    r: Result<DataTable, TableError>,
) -> bool {
    match s {
        Ok(st) => r matches Ok(out) && out@ == partitioned(st@, column, op, value, placement),
        Err(e) => r == Err::<DataTable, TableError>(e),
    }
}

/// The outcome of a priority sort: the rows are first sorted by the secondary
/// keys (when there are any), then those meeting the condition on `column` go
/// first or last.
pub open spec fn priority_outcome(
    t: Seq<ColumnView>,
    column: Seq<char>,
    op: CompareOperator,
    value: Seq<char>,
    placement: PriorityPlacement,
    cols: Seq<Seq<char>>,
    asc: Seq<bool>,
    r: Result<DataTable, TableError>,
) -> bool {
    match column_position(t, column) {
        None => r matches Err(TableError::ColumnNotFound(n)) && n@ == column,
        Some(_) => if orders_numbers(op) {
            r == Err::<DataTable, TableError>(TableError::FloatArithmetic)
        } else if cols.len() == 0 {
            r matches Ok(out) && out@ == partitioned(t, column, op, value, placement)
        } else {
            exists|s: Result<DataTable, TableError>|
                #[trigger] multi_sort_outcome(t, cols, asc, s) && prioritized(
                    s,
                    column,
                    op,
                    value,
                    placement,
                    r,
                )
        },
    }
}

/// The rows meeting the condition moved first or last (see `partitioned`).
fn partition_rows(
    table: &DataTable,
    column: &str,
    op: CompareOperator,
    value: &str,
    placement: PriorityPlacement,
) -> (r: DataTable)
    requires
        column_position(table@, column@) is Some,
        !orders_numbers(op),
    ensures
        r@ == partitioned(table@, column@, op, value@, placement),
{
    let p = match find_column(table, column) {
        Some(p) => p,
        None => {
            return table.duplicate();
        },
    };
    proof {
        lemma_column_position(table@, column@);
    }
    let wanted = trim(value);
    let needle = to_ascii_lowercase(wanted.as_str());
    proof {
        crate::text::lemma_trim_idempotent(value@);
    }
    let ghost yes = meets_at(table@, p as int, op, value@, true);
    let ghost no = meets_at(table@, p as int, op, value@, false);
    let col = &table.columns[p];
    let h = table.height();
    let mut hits: Vec<usize> = Vec::new();
    let mut rest: Vec<usize> = Vec::new();
    let mut i: usize = 0;
    while i < h
        invariant
            h == height_of(table@),
            col@ == table@[p as int],
            wanted@ == trim_spec(value@),
            wanted@ == trim_spec(wanted@),
            needle@ == ascii_lower(wanted@),
            !orders_numbers(op),
            yes == meets_at(table@, p as int, op, value@, true),
            no == meets_at(table@, p as int, op, value@, false),
            0 <= i <= h,
            hits@ == positions_where(i as nat, yes),
            rest@ == positions_where(i as nat, no),
        decreases h - i,
    {
        let none: Option<String> = None;
        let cell = if i < col.values.len() {
            &col.values[i]
        } else {
            &none
        };
        assert(cell.deep_view() == cell_at(col@, i as int));
        let hit = cell_meets_exec(cell, op, wanted.as_str(), needle.as_str());
        let ghost hb = hits@;
        let ghost rb = rest@;
        if hit {
            hits.push(i);
        } else {
            rest.push(i);
        }
        assert(positions_where((i + 1) as nat, yes) == if yes(i as int) {
            hb.push(i)
        } else {
            hb
        });
        assert(positions_where((i + 1) as nat, no) == if no(i as int) {
            rb.push(i)
        } else {
            rb
        });
        i += 1;
    }
    let mut order: Vec<usize> = Vec::new();
    let (first, second) = if placement == PriorityPlacement::First {
        (&hits, &rest)
    } else {
        (&rest, &hits)
    };
    let mut k: usize = 0;
    while k < first.len()
        invariant
            0 <= k <= first@.len(),
            order@ == first@.take(k as int),
        decreases first.len() - k,
    {
        assert(first@.take(k + 1) =~= first@.take(k as int).push(first@[k as int]));
        order.push(first[k]);
        k += 1;
    }
    let mut k: usize = 0;
    assert(first@.take(first@.len() as int) =~= first@);
    while k < second.len()
        invariant
            0 <= k <= second@.len(),
            order@ == first@ + second@.take(k as int),
        decreases second.len() - k,
    {
        assert(first@ + second@.take(k + 1) =~= (first@ + second@.take(k as int)).push(second@[k as int]));
        order.push(second[k]);
        k += 1;
    }
    assert(second@.take(second@.len() as int) =~= second@);
    select_rows(table, &order)
}

/// Sorts by the secondary keys, then moves the rows whose cell of `column`
/// meets the condition first or last (see `priority_outcome`).
pub fn priority_sort(
    table: &DataTable,
    column: &str,
    op: CompareOperator,
    value: &str,
    placement: PriorityPlacement,
    columns: &Vec<String>,
    ascending: &Vec<bool>,
) -> (r: Result<DataTable, TableError>)
    requires
        keys_reach(table@, columns.deep_view()),
    ensures
        priority_outcome(table@, column@, op, value@, placement, columns.deep_view(), ascending@, r),
{
    if find_column(table, column).is_none() {
        return Err(TableError::ColumnNotFound(column.to_owned()));
    }
    if op == CompareOperator::Greater || op == CompareOperator::GreaterEqual || op
        == CompareOperator::Less || op == CompareOperator::LessEqual {
        return Err(TableError::FloatArithmetic);
    }
    if columns.len() == 0 {
        return Ok(partition_rows(table, column, op, value, placement));
    }
    let s = multi_sort(table, columns, ascending);
    match s {
        Err(e) => {
            assert(prioritized(Err(e), column@, op, value@, placement, Err(e)));
            Err(e)
        },
        Ok(sorted) => {
            proof {
                lemma_sorted_names(table@, columns.deep_view(), ascending@, sorted);
                assert(column_position(sorted@, column@) == column_position(table@, column@));
            }
            let r = partition_rows(&sorted, column, op, value, placement);
            assert(prioritized(Ok(sorted), column@, op, value@, placement, Ok(r)));
            Ok(r)
        },
    }
}

/// A cell's text as it stands; a missing cell reads as empty text.
pub open spec fn raw_text(v: Option<Seq<char>>) -> Seq<char> {
    match v {
        Some(s) => s,
        None => Seq::empty(),
    }
}

/// The column that concatenation makes: in each row, the cells of the listed
/// columns in order, joined by `sep`.
pub open spec fn concat_column(
    t: Seq<ColumnView>,
    names: Seq<Seq<char>>,
    target: Seq<char>,
    sep: Seq<char>,
) -> ColumnView {
    ColumnView {
        name: trim_spec(target),
        logical_type: LogicalType::Text,
        values: Seq::new(
            height_of(t),
            |row: int|
                Some(
                    join_spec(
                        Seq::new(
                            names.len(),
                            |k: int| raw_text(cell_at(t[positions_of(t, names)[k] as int], row)),
                        ),
                        sep,
                    ),
                ),
        ),
    }
}

/// The outcome of concatenating columns into a new one.
pub open spec fn concat_outcome(
    t: Seq<ColumnView>,
    names: Seq<Seq<char>>,
    target: Seq<char>,
    sep: Seq<char>,
    r: Result<DataTable, TableError>,
) -> bool {
    if names.len() == 0 {
        r == Err::<DataTable, TableError>(TableError::EmptyColumnList)
    } else if trim_spec(target).len() == 0 {
        r == Err::<DataTable, TableError>(TableError::EmptyColumnName)
    } else if has_name(t, trim_spec(target)) {
        r matches Err(TableError::ColumnExists(n)) && n@ == trim_spec(target)
    } else if !all_found(t, names) {
        r matches Err(TableError::ColumnNotFound(n)) && first_unknown(t, names) matches Some(k)
            && n@ == names[k]
    } else {
        r matches Ok(out) && out@ == t.push(concat_column(t, names, target, sep))
    }
}

/// Appends a text column `target` whose cells join, in order, the cells of the
/// listed columns with `separator` (a missing cell adds empty text).
pub fn concat_columns(table: &DataTable, columns: &Vec<String>, target: &str, separator: &str) -> (r:
    Result<DataTable, TableError>)
    ensures
        concat_outcome(table@, columns.deep_view(), target@, separator@, r),
{
    let name = trim(target);
    if columns.len() == 0 {
        return Err(TableError::EmptyColumnList);
    }
    if name.as_str().is_empty() {
        return Err(TableError::EmptyColumnName);
    }
    if contains_column(table, name.as_str()) {
        return Err(TableError::ColumnExists(name));
    }
    let indexes = match find_columns(table, columns) {
        Ok(v) => v,
        Err(e) => {
            proof {
                lemma_first_unknown(table@, columns.deep_view());
            }
            return Err(e);
        },
    };
    proof {
        assert forall|k: int| 0 <= k < indexes@.len() implies (indexes@[k] as int) < table@.len() by {
            lemma_column_position(table@, columns.deep_view()[k]);
            assert(column_position(table@, columns.deep_view()[k]) is Some);
        }
    }
    let h = table.height();
    let ghost idx = indexes@;
    let mut values: Vec<Option<String>> = Vec::new();
    let mut row: usize = 0;
    while row < h
        invariant
            h == height_of(table@),
            idx == indexes@,
            idx == positions_of(table@, columns.deep_view()),
            forall|k: int| 0 <= k < idx.len() ==> (idx[k] as int) < table@.len(),
            0 <= row <= h,
            values@.len() == row,
            forall|q: int|
                0 <= q < row ==> #[trigger] values@[q].deep_view() == Some(
                    join_spec(
                        Seq::new(idx.len(), |k: int| raw_text(cell_at(table@[idx[k] as int], q))),
                        separator@,
                    ),
                ),
        decreases h - row,
    {
        let ghost want = Seq::new(idx.len(), |k: int| raw_text(cell_at(table@[idx[k] as int], row as int)));
        let mut parts: Vec<String> = Vec::new();
        let mut k: usize = 0;
        while k < indexes.len()
            invariant
                idx == indexes@,
                forall|m: int| 0 <= m < idx.len() ==> (idx[m] as int) < table@.len(),
                want == Seq::new(idx.len(), |j: int| raw_text(cell_at(table@[idx[j] as int], row as int))),
                0 <= k <= idx.len(),
                parts.deep_view() == want.take(k as int),
            decreases indexes.len() - k,
        {
            let column = &table.columns[indexes[k]];
            assert(column@ == table@[idx[k as int] as int]);
            let part: String = if row < column.values.len() {
                match &column.values[row] {
                    Some(s) => s.clone(),
                    None => String::new(),
                }
            } else {
                String::new()
            };
            assert(part@ == want[k as int]);
            let ghost before = parts.deep_view();
            parts.push(part);
            assert(parts.deep_view() =~= before.push(part@));
            assert(parts.deep_view() =~= want.take(k + 1));
            k += 1;
        }
        assert(want.take(idx.len() as int) =~= want);
        values.push(Some(join_texts(&parts, separator)));
        row += 1;
    }
    let col = TableColumn { name, logical_type: LogicalType::Text, values };
    assert(col@ =~= concat_column(table@, columns.deep_view(), target@, separator@));
    Ok(append_column(table, col))
}

/// Whether `target` (trimmed) can name a new column: blank names and names
/// already taken are refused.
pub open spec fn new_name_refusal(t: Seq<ColumnView>, target: Seq<char>, r: Result<DataTable, TableError>) -> bool {
    if trim_spec(target).len() == 0 {
        r == Err::<DataTable, TableError>(TableError::EmptyColumnName)
    } else {
        r matches Err(TableError::ColumnExists(n)) && n@ == trim_spec(target)
    }
}

/// Refuses a blank or taken name for a new column.
fn check_new_name(table: &DataTable, target: &str) -> (r: Result<(), TableError>)
    ensures
        r is Ok <==> trim_spec(target@).len() > 0 && !has_name(table@, trim_spec(target@)),
        r matches Err(e) ==> new_name_refusal(table@, target@, Err(e)),
{
    let name = trim(target);
    if name.as_str().is_empty() {
        return Err(TableError::EmptyColumnName);
    }
    if contains_column(table, name.as_str()) {
        return Err(TableError::ColumnExists(name));
    }
    Ok(())
}

/// The outcome of a column computed from an arithmetic expression: the new
/// name is checked and the expression must parse (see `expression_postfix`);
/// the arithmetic is left to floating-point code.
pub open spec fn expression_outcome(
    t: Seq<ColumnView>,
    target: Seq<char>,
    expression: Seq<char>,
    r: Result<DataTable, TableError>,
) -> bool {
    if trim_spec(target).len() == 0 || has_name(t, trim_spec(target)) {
        new_name_refusal(t, target, r)
    } else if expression_postfix(expression) is None {
        r == Err::<DataTable, TableError>(TableError::InvalidExpression)
    } else {
        r == Err::<DataTable, TableError>(TableError::FloatArithmetic)
    }
}

/// Checks the new name of an expression column and that its expression
/// parses, then leaves the arithmetic to floating-point code.
pub fn check_expression_column(table: &DataTable, target: &str, expression: &str) -> (r: Result<
    DataTable,
    TableError,
>)
    ensures
        expression_outcome(table@, target@, expression@, r),
{
    match check_new_name(table, target) {
        Err(e) => Err(e),
        Ok(()) => match parse_expression(expression) {
            None => Err(TableError::InvalidExpression),
            Some(_) => Err(TableError::FloatArithmetic),
        },
    }
}

/// The outcome of a time-difference column: the new name and both time
/// columns are checked; the fractional difference is left to floating-point
/// code.
pub open spec fn time_diff_outcome(
    t: Seq<ColumnView>,
    start: Seq<char>,
    end: Seq<char>,
    target: Seq<char>,
    r: Result<DataTable, TableError>,
) -> bool {
    if trim_spec(target).len() == 0 || has_name(t, trim_spec(target)) {
        new_name_refusal(t, target, r)
    } else if column_position(t, start) is None {
        r matches Err(TableError::ColumnNotFound(n)) && n@ == start
    } else if column_position(t, end) is None {
        r matches Err(TableError::ColumnNotFound(n)) && n@ == end
    } else {
        r == Err::<DataTable, TableError>(TableError::FloatArithmetic)
    }
}

/// Checks a time-difference column's name and time columns, then leaves the
/// difference to floating-point code.
pub fn check_time_diff_column(table: &DataTable, start: &str, end: &str, target: &str) -> (r: Result<
    DataTable,
    TableError,
>)
    ensures
        time_diff_outcome(table@, start@, end@, target@, r),
{
    match check_new_name(table, target) {
        Err(e) => return Err(e),
        Ok(()) => {},
    }
    if find_column(table, start).is_none() {
        return Err(TableError::ColumnNotFound(start.to_owned()));
    }
    if find_column(table, end).is_none() {
        return Err(TableError::ColumnNotFound(end.to_owned()));
    }
    Err(TableError::FloatArithmetic)
}

/// The outcome of a step that walks the rows of each group in the order of a
/// column and writes a computed column `output` (rolling statistics, running
/// sums, moving averages, comparisons with the previous row): the new name and
/// the group, order and value columns are checked; the numbers are left to
/// floating-point code.
pub open spec fn ordered_step_outcome(
    t: Seq<ColumnView>,
    groups: Seq<Seq<char>>,
    order: Seq<char>,
    target: Seq<char>,
    output: Seq<char>,
    r: Result<DataTable, TableError>,
) -> bool {
    if trim_spec(output).len() == 0 || has_name(t, trim_spec(output)) {
        new_name_refusal(t, output, r)
    } else if !all_found(t, groups) {
        r matches Err(TableError::ColumnNotFound(n)) && first_unknown(t, groups) matches Some(k) && n@
            == groups[k]
    } else if column_position(t, order) is None {
        r matches Err(TableError::ColumnNotFound(n)) && n@ == order
    } else if column_position(t, target) is None {
        r matches Err(TableError::ColumnNotFound(n)) && n@ == target
    } else {
        r == Err::<DataTable, TableError>(TableError::FloatArithmetic)
    }
}

/// Checks an ordered step's output name and columns (see
/// `ordered_step_outcome`), then leaves the numbers to floating-point code.
pub fn check_ordered_step(
    table: &DataTable,
    groups: &Vec<String>,
    order: &str,
    target: &str,
    output: &str,
) -> (r: Result<DataTable, TableError>)
    ensures
        ordered_step_outcome(table@, groups.deep_view(), order@, target@, output@, r),
{
    match check_new_name(table, output) {
        Err(e) => return Err(e),
        Ok(()) => {},
    }
    match find_columns(table, groups) {
        Err(e) => {
            proof {
                lemma_first_unknown(table@, groups.deep_view());
            }
            return Err(e);
        },
        Ok(_) => {},
    }
    if find_column(table, order).is_none() {
        return Err(TableError::ColumnNotFound(order.to_owned()));
    }
    if find_column(table, target).is_none() {
        return Err(TableError::ColumnNotFound(target.to_owned()));
    }
    Err(TableError::FloatArithmetic)
}

/// Whether a cell meets a text condition (see `cell_meets`); `None` for an
/// operator that orders numbers.
pub fn condition_holds(v: &Option<String>, op: CompareOperator, value: &str) -> (r: Option<bool>)
    ensures
        r == if orders_numbers(op) {
            None
        } else {
            Some(cell_meets(v.deep_view(), op, value@))
        },
{
    if op == CompareOperator::Greater || op == CompareOperator::GreaterEqual || op
        == CompareOperator::Less || op == CompareOperator::LessEqual {
        return None;
    }
    let wanted = trim(value);
    let needle = to_ascii_lowercase(wanted.as_str());
    proof {
        crate::text::lemma_trim_idempotent(value@);
    }
    Some(cell_meets_exec(v, op, wanted.as_str(), needle.as_str()))
}

/// Whether every listed key column that exists reaches the table's height (see
/// `keys_reach`).
pub fn keys_reach_table(table: &DataTable, columns: &Vec<String>) -> (r: bool)
    ensures
        r == keys_reach(table@, columns.deep_view()),
{
    let ghost cols = columns.deep_view();
    let h = table.height();
    let mut k: usize = 0;
    while k < columns.len()
        invariant
            cols == columns.deep_view(),
            h == height_of(table@),
            0 <= k <= cols.len(),
            forall|m: int|
                0 <= m < k ==> ((#[trigger] column_position(table@, cols[m])) matches Some(p)
                    ==> table@[p].values.len() >= height_of(table@)),
        decreases columns.len() - k,
    {
        assert(columns[k as int]@ == cols[k as int]);
        match find_column(table, columns[k].as_str()) {
            Some(p) => {
                proof {
                    lemma_column_position(table@, cols[k as int]);
                }
                if table.columns[p].values.len() < h {
                    return false;
                }
            },
            None => {},
        }
        k += 1;
    }
    true
}

/// Sorting by a list of one key does what sorting by that column does: the
/// two are refused alike, or give tables with the same rows in the same order
/// (for an existing key column that reaches the table's height).
pub proof fn lemma_one_key_sort_is_column_sort(
    t: Seq<ColumnView>,
    column: Seq<char>,
    asc: Seq<bool>,
    by_keys: Result<DataTable, TableError>,
    by_column: Result<DataTable, TableError>,
)
    requires
        column_position(t, column) is Some,
        multi_sort_outcome(t, seq![column], asc, by_keys),
        sort_outcome(t, column, ascending_at(asc, 0), by_column),
    ensures
        by_keys is Ok <==> by_column is Ok,
        by_keys matches Err(e) ==> by_column == Err::<DataTable, TableError>(e),
        by_keys matches Ok(a) ==> by_column matches Ok(b) && a@ == b@,
{
    reveal_with_fuel(sorted_by_keys, 2);
    let cols = seq![column];
    let p = column_position(t, column).unwrap();
    assert(cols.last() == column);
    assert(cols.drop_last() =~= Seq::<Seq<char>>::empty());
    assert(column_position(t, cols[0]) is Some);
    assert(all_found(t, cols));
    if t[p].logical_type != LogicalType::Float {
        let a = ascending_at(asc, 0);
        let keys = column_keys(t[p], height_of(t));
        let out = by_column->Ok_0;
        let perm = choose|perm: Seq<usize>| sorted_stably(perm, keys, a) && out@ == select_spec(t, perm);
        crate::sorting::lemma_sorted_stably_unique(perm, stable_order(t[p], height_of(t), a), keys, a);
        assert(sorted_by_keys(select_spec(t, perm), cols.drop_last(), asc, by_keys));
    }
}

} // verus!
