//! Operations on the set of columns: choosing, ordering, naming and adding
//! columns.

use vstd::prelude::*;
use crate::columns::{append_column, replace_column};
use crate::error::TableError;
use crate::model::{
    all_found, cell_at, column_position, copy_columns, find_column, find_columns, first_unknown,
    columns_view, has_name, height_of, lemma_column_position, lemma_first_unknown, positions_of, ColumnView,
    DataTable, LogicalType, TableColumn,
};
use crate::number::{decimal_spec, usize_to_text};
use crate::rows::{cell_blank, cell_blank_exec, positions_where};
use crate::text::{
    ascii_lower, concat, is_blank, join_spec, join_texts, squeeze_spec, squeeze_whitespace,
    text_eq, to_ascii_lowercase, trim, trim_spec,
};

verus! {

/// Whether `name` is one of `names`.
pub fn name_in(names: &Vec<String>, name: &str) -> (r: bool)
    ensures
        r == names.deep_view().contains(name@),
{
    let mut i: usize = 0;
    while i < names.len()
        invariant
            0 <= i <= names@.len(),
            forall|k: int| 0 <= k < i ==> names.deep_view()[k] != name@,
        decreases names.len() - i,
    {
        if text_eq(names[i].as_str(), name) {
            assert(names.deep_view()[i as int] == name@);
            return true;
        }
        i += 1;
    }
    false
}

/// The columns that satisfy `keep`, in order.
pub open spec fn columns_where(t: Seq<ColumnView>, keep: spec_fn(ColumnView) -> bool) -> Seq<
    ColumnView,
>
    decreases t.len(),
{
    if t.len() == 0 {
        t
    } else if keep(t.last()) {
        columns_where(t.drop_last(), keep).push(t.last())
    } else {
        columns_where(t.drop_last(), keep)
    }
}

/// The outcome of keeping the columns that satisfy `keep`: refused when none is left.
pub open spec fn filter_outcome(
    t: Seq<ColumnView>,
    keep: spec_fn(ColumnView) -> bool,
    r: Result<DataTable, TableError>,
) -> bool {
    if columns_where(t, keep).len() == 0 {
        r == Err::<DataTable, TableError>(TableError::EmptyResult)
    } else {
        r matches Ok(out) && out@ == columns_where(t, keep)
    }
}

/// Whether a column's name is listed (`listed == true`) or not listed.
pub open spec fn named_in(names: Seq<Seq<char>>, listed: bool) -> spec_fn(ColumnView) -> bool {
    |c: ColumnView| names.contains(c.name) == listed
}

/// The outcome of keeping (`listed == true`) or dropping the listed columns.
pub open spec fn listed_outcome(
    t: Seq<ColumnView>,
    names: Seq<Seq<char>>,
    listed: bool,
    r: Result<DataTable, TableError>,
) -> bool {
    if names.len() == 0 {
        r == Err::<DataTable, TableError>(TableError::EmptyColumnList)
    } else {
        filter_outcome(t, named_in(names, listed), r)
    }
}

/// Keeps the columns for which `keep_named` says whether the column's name is
/// listed (`listed == true` keeps listed columns, `false` keeps the others).
fn filter_by_names(table: &DataTable, names: &Vec<String>, listed: bool) -> (r: Result<
    DataTable,
    TableError,
>)
    ensures
        filter_outcome(table@, named_in(names.deep_view(), listed), r),
{
    let ghost keep = named_in(names.deep_view(), listed);
    let mut out: Vec<TableColumn> = Vec::new();
    let mut c: usize = 0;
    while c < table.columns.len()
        invariant
            keep == named_in(names.deep_view(), listed),
            0 <= c <= table.columns@.len(),
            columns_view(out@) == columns_where(table@.take(c as int), keep),
        decreases table.columns.len() - c,
    {
        let ghost before = out@;
        assert(table@.take(c + 1).drop_last() =~= table@.take(c as int));
        assert(table@.take(c + 1).last() == table.columns@[c as int]@);
        if name_in(names, table.columns[c].name.as_str()) == listed {
            out.push(table.columns[c].duplicate());
            assert(columns_view(out@) =~= columns_where(table@.take(c + 1), keep));
        } else {
            assert(columns_view(out@) =~= columns_where(table@.take(c + 1), keep));
        }
        c += 1;
    }
    assert(table@.take(table.columns@.len() as int) =~= table@);
    if out.len() == 0 {
        return Err(TableError::EmptyResult);
    }
    Ok(DataTable { columns: out })
}

/// Keeps the listed columns, in table order; an empty list, or a result without
/// columns, is refused.
pub fn keep_columns(table: &DataTable, columns: &Vec<String>) -> (r: Result<DataTable, TableError>)
    ensures
        listed_outcome(table@, columns.deep_view(), true, r),
{
    if columns.len() == 0 {
        return Err(TableError::EmptyColumnList);
    }
    filter_by_names(table, columns, true)
}

/// Drops the listed columns; an empty list, or a result without columns, is refused.
pub fn drop_columns(table: &DataTable, columns: &Vec<String>) -> (r: Result<DataTable, TableError>)
    ensures
        listed_outcome(table@, columns.deep_view(), false, r),
{
    if columns.len() == 0 {
        return Err(TableError::EmptyColumnList);
    }
    filter_by_names(table, columns, false)
}

/// Some cell of the column is present and not blank.
pub open spec fn has_content(c: ColumnView) -> bool {
    exists|i: int| 0 <= i < c.values.len() && !cell_blank(#[trigger] c.values[i])
}

/// Whether a column has content.
pub open spec fn with_content() -> spec_fn(ColumnView) -> bool {
    |c: ColumnView| has_content(c)
}

/// Drops the columns whose cells are all blank; a result without columns is refused.
pub fn drop_empty_columns(table: &DataTable) -> (r: Result<DataTable, TableError>)
    ensures
        filter_outcome(table@, with_content(), r),
{
    let ghost keep = with_content();
    let mut out: Vec<TableColumn> = Vec::new();
    let mut c: usize = 0;
    while c < table.columns.len()
        invariant
            keep == with_content(),
            0 <= c <= table.columns@.len(),
            columns_view(out@) == columns_where(table@.take(c as int), keep),
        decreases table.columns.len() - c,
    {
        assert(table@.take(c + 1).drop_last() =~= table@.take(c as int));
        assert(table@.take(c + 1).last() == table.columns@[c as int]@);
        let column = &table.columns[c];
        let mut found = false;
        let mut i: usize = 0;
        while i < column.values.len()
            invariant
                0 <= i <= column.values@.len(),
                found == exists|k: int|
                    0 <= k < i && !cell_blank(#[trigger] column@.values[k]),
            decreases column.values.len() - i,
        {
            if !cell_blank_exec(&column.values[i]) {
                assert(!cell_blank(column@.values[i as int]));
                found = true;
            }
            i += 1;
        }
        if found {
            out.push(column.duplicate());
        }
        assert(columns_view(out@) =~= columns_where(table@.take(c + 1), keep));
        c += 1;
    }
    assert(table@.take(table.columns@.len() as int) =~= table@);
    if out.len() == 0 {
        return Err(TableError::EmptyResult);
    }
    Ok(DataTable { columns: out })
}

/// The outcome of renaming column `from` to the trimmed `to`.
pub open spec fn rename_outcome(
    t: Seq<ColumnView>,
    from: Seq<char>,
    to: Seq<char>,
    r: Result<DataTable, TableError>,
) -> bool {
    if trim_spec(from).len() == 0 || trim_spec(to).len() == 0 {
        r == Err::<DataTable, TableError>(TableError::EmptyColumnName)
    } else {
        match column_position(t, from) {
            Some(p) => r matches Ok(out) && out@ == t.update(
                p,
                (ColumnView { name: trim_spec(to), ..t[p] }),
            ),
            None => r matches Err(TableError::ColumnNotFound(n)) && n@ == from,
        }
    }
}

/// The column named `from` renamed to the trimmed `to`.
pub fn rename_column(table: &DataTable, from: &str, to: &str) -> (r: Result<DataTable, TableError>)
    ensures
        rename_outcome(table@, from@, to@, r),
{
    if is_blank(from) || is_blank(to) {
        return Err(TableError::EmptyColumnName);
    }
    let pos = match find_column(table, from) {
        Some(p) => p,
        None => return Err(TableError::ColumnNotFound(from.to_owned())),
    };
    proof {
        lemma_column_position(table@, from@);
    }
    let mut col = table.columns[pos].duplicate();
    col.name = trim(to);
    let r = replace_column(table, pos, col);
    assert(r@ =~= table@.update(pos as int, (ColumnView { name: trim_spec(to@), ..table@[pos as int] })));
    Ok(r)
}

/// A column renamed with a prefix and a suffix.
pub open spec fn affixed(prefix: Seq<char>, suffix: Seq<char>) -> spec_fn(ColumnView) -> ColumnView {
    |c: ColumnView| (ColumnView { name: prefix + c.name + suffix, ..c })
}

/// The outcome of wrapping every column name in a prefix and a suffix.
pub open spec fn affix_outcome(
    t: Seq<ColumnView>,
    prefix: Seq<char>,
    suffix: Seq<char>,
    r: Result<DataTable, TableError>,
) -> bool {
    if prefix.len() == 0 && suffix.len() == 0 {
        r == Err::<DataTable, TableError>(TableError::EmptyAffix)
    } else {
        r matches Ok(out) && out@ == t.map_values(affixed(prefix, suffix))
    }
}

/// Every column name wrapped in `prefix` and `suffix`; both empty is refused.
pub fn add_column_name_affix(table: &DataTable, prefix: &str, suffix: &str) -> (r: Result<
    DataTable,
    TableError,
>)
    ensures
        affix_outcome(table@, prefix@, suffix@, r),
{
    if prefix.is_empty() && suffix.is_empty() {
        return Err(TableError::EmptyAffix);
    }
    let mut columns: Vec<TableColumn> = Vec::new();
    let mut c: usize = 0;
    while c < table.columns.len()
        invariant
            0 <= c <= table.columns@.len(),
            columns@.len() == c,
            forall|k: int|
                0 <= k < c ==> #[trigger] columns@[k]@ == (ColumnView {
                    name: prefix@ + table@[k].name + suffix@,
                    ..table@[k]
                }),
        decreases table.columns.len() - c,
    {
        let mut col = table.columns[c].duplicate();
        let head = concat(prefix, col.name.as_str());
        col.name = concat(head.as_str(), suffix);
        columns.push(col);
        c += 1;
    }
    let r = DataTable { columns };
    assert(r@ =~= table@.map_values(affixed(prefix@, suffix@)));
    Ok(r)
}

/// The outcome of copying column `source` under the trimmed name `target`.
pub open spec fn duplicate_outcome(
    t: Seq<ColumnView>,
    source: Seq<char>,
    target: Seq<char>,
    r: Result<DataTable, TableError>,
) -> bool {
    if trim_spec(source).len() == 0 || trim_spec(target).len() == 0 {
        r == Err::<DataTable, TableError>(TableError::EmptyColumnName)
    } else if has_name(t, trim_spec(target)) {
        r matches Err(TableError::ColumnExists(n)) && n@ == trim_spec(target)
    } else {
        match column_position(t, source) {
            Some(p) => r matches Ok(out) && out@ == t.push(
                (ColumnView { name: trim_spec(target), ..t[p] }),
            ),
            None => r matches Err(TableError::ColumnNotFound(n)) && n@ == source,
        }
    }
}

/// A copy of column `source` appended under the trimmed name `target`.
pub fn duplicate_column(table: &DataTable, source: &str, target: &str) -> (r: Result<
    DataTable,
    TableError,
>)
    ensures
        duplicate_outcome(table@, source@, target@, r),
{
    let target = trim(target);
    if is_blank(source) || target.as_str().is_empty() {
        return Err(TableError::EmptyColumnName);
    }
    if crate::model::contains_column(table, target.as_str()) {
        return Err(TableError::ColumnExists(target));
    }
    let pos = match find_column(table, source) {
        Some(p) => p,
        None => return Err(TableError::ColumnNotFound(source.to_owned())),
    };
    proof {
        lemma_column_position(table@, source@);
    }
    let mut col = table.columns[pos].duplicate();
    col.name = target;
    let r = append_column(table, col);
    Ok(r)
}

/// Parts of a merged cell: the trimmed, non-empty cells of the given columns in
/// row `row`, in column order.
pub open spec fn merge_parts(t: Seq<ColumnView>, idx: Seq<usize>, row: int) -> Seq<Seq<char>>
    decreases idx.len(),
{
    if idx.len() == 0 {
        Seq::empty()
    } else {
        let p = merge_parts(t, idx.drop_last(), row);
        match cell_at(t[idx.last() as int], row) {
            Some(s) => if trim_spec(s).len() > 0 {
                p.push(trim_spec(s))
            } else {
                p
            },
            None => p,
        }
    }
}

/// The merged cell of a row: the parts joined by `sep`, missing when no part.
pub open spec fn merged_cell(t: Seq<ColumnView>, idx: Seq<usize>, row: int, sep: Seq<char>) -> Option<
    Seq<char>,
> {
    let parts = merge_parts(t, idx, row);
    if parts.len() == 0 {
        None
    } else {
        Some(join_spec(parts, sep))
    }
}

/// The column that merging makes.
pub open spec fn merged_column(
    t: Seq<ColumnView>,
    names: Seq<Seq<char>>,
    target: Seq<char>,
    sep: Seq<char>,
) -> ColumnView {
    ColumnView {
        name: trim_spec(target),
        logical_type: LogicalType::Text,
        values: Seq::new(
            height_of(t),
            |row: int| merged_cell(t, positions_of(t, names), row, sep),
        ),
    }
}

/// The outcome of merging columns.
pub open spec fn merge_outcome(
    t: Seq<ColumnView>,
    names: Seq<Seq<char>>,
    target: Seq<char>,
    sep: Seq<char>,
    r: Result<DataTable, TableError>,
) -> bool {
    if names.len() < 2 {
        r == Err::<DataTable, TableError>(TableError::TooFewColumns)
    } else if trim_spec(target).len() == 0 {
        r == Err::<DataTable, TableError>(TableError::EmptyColumnName)
    } else if has_name(t, trim_spec(target)) {
        r matches Err(TableError::ColumnExists(n)) && n@ == trim_spec(target)
    } else if !all_found(t, names) {
        r matches Err(TableError::ColumnNotFound(n)) && first_unknown(t, names) matches Some(k)
            && n@ == names[k]
    } else {
        r matches Ok(out) && out@ == t.push(merged_column(t, names, target, sep))
    }
}

/// Appends a text column `target` whose cells join the non-blank cells of the
/// listed columns with `separator`.
pub fn merge_columns(table: &DataTable, columns: &Vec<String>, target: &str, separator: &str) -> (r:
    Result<DataTable, TableError>)
    ensures
        merge_outcome(table@, columns.deep_view(), target@, separator@, r),
{
    let target_text = target;
    let target = trim(target);
    if columns.len() < 2 {
        return Err(TableError::TooFewColumns);
    }
    if target.as_str().is_empty() {
        return Err(TableError::EmptyColumnName);
    }
    if crate::model::contains_column(table, target.as_str()) {
        return Err(TableError::ColumnExists(target));
    }
    let indexes = match find_columns(table, columns) {
        Ok(v) => v,
        Err(e) => {
            proof {
                lemma_first_unknown(table@, columns.deep_view());
            }
            return Err(e);
        },
    };
    proof {
        assert forall|k: int| 0 <= k < indexes@.len() implies (indexes@[k] as int) < table@.len() by {
            lemma_column_position(table@, columns.deep_view()[k]);
            assert(column_position(table@, columns.deep_view()[k]) is Some);
        }
    }
    let h = table.height();
    let ghost idx = indexes@;
    let mut values: Vec<Option<String>> = Vec::new();
    let mut row: usize = 0;
    while row < h
        invariant
            h == height_of(table@),
            idx == indexes@,
            forall|k: int| 0 <= k < idx.len() ==> (idx[k] as int) < table@.len(),
            0 <= row <= h,
            values@.len() == row,
            forall|q: int|
                0 <= q < row ==> #[trigger] values@[q].deep_view() == merged_cell(
                    table@,
                    idx,
                    q,
                    separator@,
                ),
        decreases h - row,
    {
        let mut parts: Vec<String> = Vec::new();
        let mut k: usize = 0;
        while k < indexes.len()
            invariant
                idx == indexes@,
                forall|m: int| 0 <= m < idx.len() ==> (idx[m] as int) < table@.len(),
                0 <= k <= idx.len(),
                parts.deep_view() == merge_parts(table@, idx.take(k as int), row as int),
            decreases indexes.len() - k,
        {
            assert(idx.take(k + 1).drop_last() =~= idx.take(k as int));
            let column = &table.columns[indexes[k]];
            if row < column.values.len() {
                match &column.values[row] {
                    Some(s) => {
                        let t = trim(s.as_str());
                        if !t.as_str().is_empty() {
                            let ghost before = parts.deep_view();
                            parts.push(t);
                            assert(parts.deep_view() =~= before.push(trim_spec(s@)));
                        }
                    },
                    None => {},
                }
            }
            k += 1;
        }
        assert(idx.take(idx.len() as int) =~= idx);
        if parts.len() == 0 {
            values.push(None);
        } else {
            values.push(Some(join_texts(&parts, separator)));
        }
        row += 1;
    }
    let col = TableColumn { name: target, logical_type: LogicalType::Text, values };
    assert(col@ =~= merged_column(table@, columns.deep_view(), target_text@, separator@));
    Ok(append_column(table, col))
}

/// The row-number column.
pub open spec fn numbered_column(t: Seq<ColumnView>, column: Seq<char>, start: int) -> ColumnView {
    ColumnView {
        name: trim_spec(column),
        logical_type: LogicalType::Integer,
        values: Seq::new(height_of(t), |i: int| Some(decimal_spec((start + i) as nat))),
    }
}

/// The outcome of adding a row-number column.
pub open spec fn row_number_outcome(
    t: Seq<ColumnView>,
    column: Seq<char>,
    start: int,
    r: Result<DataTable, TableError>,
) -> bool {
    if trim_spec(column).len() == 0 {
        r == Err::<DataTable, TableError>(TableError::EmptyColumnName)
    } else if has_name(t, trim_spec(column)) {
        r matches Err(TableError::ColumnExists(n)) && n@ == trim_spec(column)
    } else {
        r matches Ok(out) && out@ == t.push(numbered_column(t, column, start))
    }
}

/// Appends an integer column `column` numbering the rows from `start`.
pub fn add_row_number_column(table: &DataTable, column: &str, start: usize) -> (r: Result<
    DataTable,
    TableError,
>)
    requires
        start + height_of(table@) <= usize::MAX + 1,
    ensures
        row_number_outcome(table@, column@, start as int, r),
{
    let name = trim(column);
    if name.as_str().is_empty() {
        return Err(TableError::EmptyColumnName);
    }
    if crate::model::contains_column(table, name.as_str()) {
        return Err(TableError::ColumnExists(name));
    }
    let h = table.height();
    let mut values: Vec<Option<String>> = Vec::new();
    let mut i: usize = 0;
    while i < h
        invariant
            h == height_of(table@),
            start + h <= usize::MAX + 1,
            0 <= i <= h,
            values@.len() == i,
            forall|k: int|
                0 <= k < i ==> #[trigger] values@[k].deep_view() == Some(
                    decimal_spec((start + k) as nat),
                ),
        decreases h - i,
    {
        values.push(Some(usize_to_text(start + i)));
        i += 1;
    }
    let col = TableColumn { name, logical_type: LogicalType::Integer, values };
    assert(col@ =~= numbered_column(table@, column@, start as int));
    Ok(append_column(table, col))
}

/// The table after renaming, for each pair in turn, the first column named like
/// the pair's source to the pair's target.
pub open spec fn mapped(t: Seq<ColumnView>, m: Seq<(Seq<char>, Seq<char>)>) -> Seq<ColumnView>
    decreases m.len(),
{
    if m.len() == 0 {
        t
    } else {
        let prev = mapped(t, m.drop_last());
        match column_position(prev, m.last().0) {
            Some(p) => prev.update(p, (ColumnView { name: m.last().1, ..prev[p] })),
            None => prev,
        }
    }
}

/// Renames columns by (source, target) pairs, applied in order; a source that no
/// column carries is skipped.
pub fn apply_mappings(table: &DataTable, mappings: &Vec<(String, String)>) -> (r: DataTable)
    ensures
        r@ == mapped(table@, mappings.deep_view()),
{
    let mut current = table.duplicate();
    let mut k: usize = 0;
    while k < mappings.len()
        invariant
            0 <= k <= mappings@.len(),
            current@ == mapped(table@, mappings.deep_view().take(k as int)),
        decreases mappings.len() - k,
    {
        assert(mappings.deep_view().take(k + 1).drop_last() =~= mappings.deep_view().take(k as int));
        let (source, target) = &mappings[k];
        match find_column(&current, source.as_str()) {
            Some(p) => {
                proof {
                    lemma_column_position(current@, source@);
                }
                let mut col = current.columns[p].duplicate();
                col.name = target.clone();
                current = replace_column(&current, p, col);
            },
            None => {},
        }
        k += 1;
    }
    assert(mappings.deep_view().take(mappings@.len() as int) =~= mappings.deep_view());
    current
}

/// A header before deduplication: whitespace runs joined by `_`, ASCII letters
/// lower-cased; an empty result becomes `column_<position from 1>`.
pub open spec fn header_candidate(h: Seq<char>, index: int) -> Seq<char> {
    let c = ascii_lower(squeeze_spec(h, '_'));
    if c.len() == 0 {
        "column_"@ + decimal_spec((index + 1) as nat)
    } else {
        c
    }
}

/// How many elements of `s` equal `x`.
pub open spec fn count_in(s: Seq<Seq<char>>, x: Seq<char>) -> nat
    decreases s.len(),
{
    if s.len() == 0 {
        0
    } else {
        count_in(s.drop_last(), x) + if s.last() == x {
            1nat
        } else {
            0nat
        }
    }
}

/// A candidate with a numeric suffix.
pub open spec fn header_suffixed(candidate: Seq<char>, k: nat) -> Seq<char> {
    candidate + "_"@ + decimal_spec(k)
}

/// The first suffix from `k` up whose suffixed candidate is not taken (looking
/// no further than `taken.len() + 1`, by which one is free whenever the
/// candidate itself is taken).
pub open spec fn free_suffix_from(taken: Seq<Seq<char>>, candidate: Seq<char>, k: nat) -> nat
    decreases taken.len() + 1 - k,
{
    if k >= taken.len() + 1 || !taken.contains(header_suffixed(candidate, k)) {
        k
    } else {
        free_suffix_from(taken, candidate, k + 1)
    }
}

/// A header that clashes with none taken: the candidate when it is free,
/// else the candidate with the first free suffix `_2`, `_3`, ...
pub open spec fn distinct_header(candidate: Seq<char>, taken: Seq<Seq<char>>) -> Seq<char> {
    if !taken.contains(candidate) {
        candidate
    } else {
        header_suffixed(candidate, free_suffix_from(taken, candidate, 2))
    }
}

/// Normalised headers, in order: each header's candidate, made distinct from
/// the headers before it.
pub open spec fn normalized_headers(hs: Seq<Seq<char>>) -> Seq<Seq<char>>
    decreases hs.len(),
{
    if hs.len() == 0 {
        Seq::empty()
    } else {
        let prev = normalized_headers(hs.drop_last());
        prev.push(distinct_header(header_candidate(hs.last(), hs.len() - 1), prev))
    }
}

proof fn lemma_normalized_headers_len(hs: Seq<Seq<char>>)
    ensures
        normalized_headers(hs).len() == hs.len(),
    decreases hs.len(),
{
    if hs.len() > 0 {
        lemma_normalized_headers_len(hs.drop_last());
    }
}

/// Every suffix the search passes over is taken; the one it stops at lies
/// between its start and `taken.len() + 1`.
proof fn lemma_free_suffix_facts(taken: Seq<Seq<char>>, candidate: Seq<char>, k: nat)
    requires
        2 <= k <= taken.len() + 1,
    ensures
        k <= free_suffix_from(taken, candidate, k) <= taken.len() + 1,
        forall|j: nat| k <= j < free_suffix_from(taken, candidate, k) ==> taken.contains(
            #[trigger] header_suffixed(candidate, j),
        ),
        free_suffix_from(taken, candidate, k) < taken.len() + 1 ==> !taken.contains(
            header_suffixed(candidate, free_suffix_from(taken, candidate, k)),
        ),
    decreases taken.len() + 1 - k,
{
    if k < taken.len() + 1 && taken.contains(header_suffixed(candidate, k)) {
        lemma_free_suffix_facts(taken, candidate, k + 1);
    }
}

/// Suffixed candidates with different suffixes differ, and differ from the
/// candidate.
proof fn lemma_header_suffixed_distinct(candidate: Seq<char>, a: nat, b: nat)
    ensures
        header_suffixed(candidate, a) != candidate,
        a != b ==> header_suffixed(candidate, a) != header_suffixed(candidate, b),
{
    reveal_strlit("_");
    crate::number::lemma_decimal_roundtrip(a);
    let p = candidate + "_"@;
    assert(header_suffixed(candidate, a).len() > candidate.len()) by {
        if decimal_spec(a).len() == 0 {
            assert(crate::number::digits_value(decimal_spec(a)) == 0);
        }
    }
    if header_suffixed(candidate, a) == header_suffixed(candidate, b) {
        assert((p + decimal_spec(a)).skip(p.len() as int) =~= decimal_spec(a));
        assert((p + decimal_spec(b)).skip(p.len() as int) =~= decimal_spec(b));
        crate::number::lemma_decimal_injective(a, b);
    }
}

/// When the candidate is taken, the suffix found is free.
proof fn lemma_free_suffix_free(taken: Seq<Seq<char>>, candidate: Seq<char>)
    requires
        taken.contains(candidate),
    ensures
        !taken.contains(header_suffixed(candidate, free_suffix_from(taken, candidate, 2))),
{
    let n = taken.len();
    let f = free_suffix_from(taken, candidate, 2);
    lemma_free_suffix_facts(taken, candidate, 2);
    if f == n + 1 && taken.contains(header_suffixed(candidate, f)) {
        let g = Seq::new(n, |i: int| header_suffixed(candidate, (i + 2) as nat));
        assert forall|i: int, j: int| 0 <= i < g.len() && 0 <= j < g.len() && i != j implies g[i] != g[j] by {
            lemma_header_suffixed_distinct(candidate, (i + 2) as nat, (j + 2) as nat);
        }
        assert(g.no_duplicates());
        g.unique_seq_to_set();
        let big = g.to_set().insert(candidate);
        assert(!g.to_set().contains(candidate)) by {
            if g.to_set().contains(candidate) {
                let i = choose|i: int| 0 <= i < g.len() && g[i] == candidate;
                lemma_header_suffixed_distinct(candidate, (i + 2) as nat, 0);
            }
        }
        assert forall|x: Seq<char>| big.contains(x) implies taken.to_set().contains(x) by {
            if x != candidate {
                let i = choose|i: int| 0 <= i < g.len() && g[i] == x;
                let j = (i + 2) as nat;
                assert(g[i] == header_suffixed(candidate, j));
                if j < f {
                    assert(taken.contains(header_suffixed(candidate, j)));
                }
            }
        }
        vstd::set_lib::lemma_len_subset(big, taken.to_set());
        taken.lemma_cardinality_of_set();
    }
}

/// Whether the candidate with this suffix is among the names.
fn suffixed_taken(names: &Vec<String>, with_mark: &String, suffix: usize) -> (r: bool)
    ensures
        r == names.deep_view().contains(with_mark@ + decimal_spec(suffix as nat)),
{
    let number = usize_to_text(suffix);
    let name = concat(with_mark.as_str(), number.as_str());
    name_in(names, name.as_str())
}

/// Normalised headers are pairwise distinct.
pub proof fn lemma_normalized_headers_distinct(hs: Seq<Seq<char>>)
    ensures
        normalized_headers(hs).no_duplicates(),
        normalized_headers(hs).len() == hs.len(),
    decreases hs.len(),
{
    lemma_normalized_headers_len(hs);
    if hs.len() > 0 {
        let prev = normalized_headers(hs.drop_last());
        lemma_normalized_headers_distinct(hs.drop_last());
        let cand = header_candidate(hs.last(), hs.len() - 1);
        let x = distinct_header(cand, prev);
        if prev.contains(cand) {
            lemma_free_suffix_free(prev, cand);
        }
        assert(!prev.contains(x));
        let all = prev.push(x);
        assert forall|i: int, j: int| 0 <= i < all.len() && 0 <= j < all.len() && i != j implies all[i] != all[j] by {
            if i < prev.len() && j < prev.len() {
                assert(all[i] == prev[i] && all[j] == prev[j]);
            } else if i < prev.len() {
                assert(all[i] == prev[i]);
            } else {
                assert(all[j] == prev[j]);
            }
        }
    }
}

/// Normalises column headers (see `normalized_headers`); the result has no
/// two equal headers.
pub fn normalize_headers(headers: &Vec<String>) -> (r: Vec<String>)
    ensures
        r.deep_view() == normalized_headers(headers.deep_view()),
        r@.len() == headers@.len(),
        r.deep_view().no_duplicates(),
{
    let ghost hs = headers.deep_view();
    let mut out: Vec<String> = Vec::new();
    let mut i: usize = 0;
    proof {
        reveal_strlit("column_");
        reveal_strlit("_");
    }
    while i < headers.len()
        invariant
            hs == headers.deep_view(),
            hs.len() == headers@.len(),
            0 <= i <= hs.len(),
            out.deep_view() == normalized_headers(hs.take(i as int)),
            out@.len() == i,
        decreases headers.len() - i,
    {
        assert(hs.take(i + 1).drop_last() =~= hs.take(i as int));
        assert(hs.take(i + 1).last() == hs[i as int]);
        let squeezed = squeeze_whitespace(headers[i].as_str(), '_');
        let lowered = to_ascii_lowercase(squeezed.as_str());
        let cand = if lowered.as_str().is_empty() {
            let number = usize_to_text(i + 1);
            concat("column_", number.as_str())
        } else {
            lowered
        };
        assert(cand@ == header_candidate(hs[i as int], i as int));
        let ghost taken = out.deep_view();
        let name = if !name_in(&out, cand.as_str()) {
            cand
        } else {
            let with_mark = concat(cand.as_str(), "_");
            assert(taken.len() >= 1);
            assert(i < headers.len());
            let mut suffix: usize = 2;
            while suffix <= i && suffixed_taken(&out, &with_mark, suffix)
                invariant
                    taken == out.deep_view(),
                    taken.len() == i,
                    i < hs.len(),
                    i < usize::MAX,
                    with_mark@ == cand@ + "_"@,
                    2 <= suffix <= i + 1,
                    free_suffix_from(taken, cand@, 2) == free_suffix_from(taken, cand@, suffix as nat),
                decreases i + 1 - suffix,
            {
                suffix += 1;
            }
            let number = usize_to_text(suffix);
            concat(with_mark.as_str(), number.as_str())
        };
        assert(name@ == distinct_header(cand@, taken));
        let ghost prev_out = out.deep_view();
        out.push(name);
        assert(out.deep_view() =~= prev_out.push(distinct_header(cand@, taken)));
        i += 1;
    }
    assert(hs.take(hs.len() as int) =~= hs);
    proof {
        lemma_normalized_headers_distinct(hs);
    }
    out
}

/// Every column renamed to its normalised header.
pub open spec fn normalized_names(t: Seq<ColumnView>) -> Seq<ColumnView> {
    Seq::new(
        t.len(),
        |i: int| (ColumnView { name: normalized_headers(crate::model::names_of(t))[i], ..t[i] }),
    )
}

/// Every column renamed to its normalised header.
pub fn normalize_column_names(table: &DataTable) -> (r: DataTable)
    ensures
        r@ == normalized_names(table@),
{
    let names = table.column_names();
    let normalized = normalize_headers(&names);
    assert(normalized.deep_view().len() == normalized@.len());
    let mut columns: Vec<TableColumn> = Vec::new();
    let mut c: usize = 0;
    while c < table.columns.len()
        invariant
            normalized.deep_view() == normalized_headers(crate::model::names_of(table@)),
            normalized@.len() == table@.len(),
            0 <= c <= table.columns@.len(),
            columns@.len() == c,
            forall|k: int|
                0 <= k < c ==> #[trigger] columns@[k]@ == (ColumnView {
                    name: normalized_headers(crate::model::names_of(table@))[k],
                    ..table@[k]
                }),
        decreases table.columns.len() - c,
    {
        let mut col = table.columns[c].duplicate();
        col.name = normalized[c].clone();
        columns.push(col);
        c += 1;
    }
    let r = DataTable { columns };
    assert(r@ =~= normalized_names(table@));
    r
}

/// Whether `p[k]` does not occur earlier in `p`.
pub open spec fn first_at(p: Seq<usize>, k: int) -> bool {
    forall|j: int| 0 <= j < k ==> p[j] != p[k]
}

/// Column order after reordering: the named columns in the order first named,
/// then the remaining columns in table order.
pub open spec fn reorder_positions(t: Seq<ColumnView>, names: Seq<Seq<char>>) -> Seq<usize> {
    let p = positions_of(t, names);
    let lead = positions_where(p.len(), |k: int| first_at(p, k));
    Seq::new(lead.len(), |m: int| p[lead[m] as int]) + positions_where(
        t.len(),
        |c: int| !p.contains(c as usize),
    )
}

/// The columns at the given positions.
pub open spec fn columns_at(t: Seq<ColumnView>, order: Seq<usize>) -> Seq<ColumnView> {
    Seq::new(order.len(), |m: int| t[order[m] as int])
}

/// The outcome of reordering columns.
pub open spec fn reorder_outcome(
    t: Seq<ColumnView>,
    names: Seq<Seq<char>>,
    r: Result<DataTable, TableError>,
) -> bool {
    if names.len() == 0 {
        r == Err::<DataTable, TableError>(TableError::EmptyColumnList)
    } else if !all_found(t, names) {
        r matches Err(TableError::ColumnNotFound(n)) && first_unknown(t, names) matches Some(k)
            && n@ == names[k]
    } else {
        r matches Ok(out) && out@ == columns_at(t, reorder_positions(t, names))
    }
}

/// Moves the named columns to the front, in the order given (a repeated name
/// counts once); the other columns follow in table order.
pub fn reorder_columns(table: &DataTable, columns: &Vec<String>) -> (r: Result<DataTable, TableError>)
    ensures
        reorder_outcome(table@, columns.deep_view(), r),
{
    if columns.len() == 0 {
        return Err(TableError::EmptyColumnList);
    }
    let idx = match find_columns(table, columns) {
        Ok(v) => v,
        Err(e) => {
            proof {
                lemma_first_unknown(table@, columns.deep_view());
            }
            return Err(e);
        },
    };
    proof {
        assert forall|k: int| 0 <= k < idx@.len() implies (idx@[k] as int) < table@.len() by {
            lemma_column_position(table@, columns.deep_view()[k]);
            assert(column_position(table@, columns.deep_view()[k]) is Some);
        }
    }
    let ghost p = idx@;
    let ghost first = |k: int| first_at(p, k);
    let w = table.columns.len();
    let mut used: Vec<bool> = Vec::new();
    let mut c: usize = 0;
    while c < w
        invariant
            w == table@.len(),
            0 <= c <= w,
            used@.len() == c,
            forall|m: int| 0 <= m < c ==> !used@[m],
        decreases w - c,
    {
        used.push(false);
        c += 1;
    }
    let mut order: Vec<usize> = Vec::new();
    let mut k: usize = 0;
    while k < idx.len()
        invariant
            p == idx@,
            w == table@.len(),
            first == (|k: int| first_at(p, k)),
            forall|m: int| 0 <= m < p.len() ==> (p[m] as int) < w,
            0 <= k <= p.len(),
            used@.len() == w,
            forall|m: int| 0 <= m < w ==> (used@[m] <==> p.take(k as int).contains(m as usize)),
            order@ == Seq::new(
                positions_where(k as nat, first).len(),
                |m: int| p[positions_where(k as nat, first)[m] as int],
            ),
        decreases idx.len() - k,
    {
        let ghost lead = positions_where(k as nat, first);
        assert(positions_where((k + 1) as nat, first) == if first(k as int) {
            lead.push(k)
        } else {
            lead
        });
        let i = idx[k];
        assert(p.take(k + 1) =~= p.take(k as int).push(i));
        if !used[i] {
            assert(first_at(p, k as int)) by {
                assert forall|j: int| 0 <= j < k implies p[j] != p[k as int] by {
                    if p[j] == p[k as int] {
                        assert(p.take(k as int)[j] == i);
                    }
                }
            }
            order.push(i);
            used.set(i, true);
            assert(order@ =~= Seq::new(
                positions_where((k + 1) as nat, first).len(),
                |m: int| p[positions_where((k + 1) as nat, first)[m] as int],
            ));
        } else {
            assert(!first_at(p, k as int)) by {
                assert(p.take(k as int).contains(i));
                let j = choose|j: int| 0 <= j < k && p.take(k as int)[j] == i;
                assert(p[j] == p[k as int]);
            }
        }
        assert forall|m: int| 0 <= m < w implies (used@[m] <==> p.take(k + 1).contains(
            m as usize,
        )) by {
            if m == i as int {
                assert(p.take(k + 1)[k as int] == i);
            } else {
                if p.take(k + 1).contains(m as usize) {
                    let j = choose|j: int| 0 <= j < k + 1 && #[trigger] p.take(k + 1)[j] == m as usize;
                    assert(p.take(k as int)[j] == m as usize);
                }
            }
        }
        k += 1;
    }
    assert(p.take(p.len() as int) =~= p);
    let ghost lead_part = order@;
    let ghost rest_keep = |c: int| !p.contains(c as usize);
    let mut c: usize = 0;
    while c < w
        invariant
            w == table@.len(),
            used@.len() == w,
            forall|m: int| 0 <= m < w ==> (used@[m] <==> p.contains(m as usize)),
            rest_keep == (|c: int| !p.contains(c as usize)),
            0 <= c <= w,
            order@ == lead_part + positions_where(c as nat, rest_keep),
        decreases w - c,
    {
        let ghost rest = positions_where(c as nat, rest_keep);
        assert(positions_where((c + 1) as nat, rest_keep) == if rest_keep(c as int) {
            rest.push(c)
        } else {
            rest
        });
        if !used[c] {
            order.push(c);
        }
        assert(order@ =~= lead_part + positions_where((c + 1) as nat, rest_keep));
        c += 1;
    }
    let ghost ord = order@;
    assert(ord =~= reorder_positions(table@, columns.deep_view()));
    let plen = idx.len();
    proof {
        assert forall|m: int| 0 <= m < ord.len() implies (ord[m] as int) < w by {
            if m < lead_part.len() {
                let lead = positions_where(p.len(), first);
                crate::preview::lemma_positions_where_bound(p.len(), first, m);
                assert(lead_part[m] == p[lead[m] as int]);
            } else {
                crate::preview::lemma_positions_where_bound(w as nat, rest_keep, m - lead_part.len());
            }
        }
    }
    let mut out: Vec<TableColumn> = Vec::new();
    let mut j: usize = 0;
    while j < order.len()
        invariant
            ord == order@,
            w == table@.len(),
            forall|m: int| 0 <= m < ord.len() ==> (ord[m] as int) < w,
            0 <= j <= ord.len(),
            out@.len() == j,
            forall|m: int| 0 <= m < j ==> #[trigger] out@[m]@ == table@[ord[m] as int],
        decreases order.len() - j,
    {
        out.push(table.columns[order[j]].duplicate());
        j += 1;
    }
    let r = DataTable { columns: out };
    assert(r@ =~= columns_at(table@, ord));
    Ok(r)
}

} // verus!
