//! Row selection: every operation here keeps a list of row positions and
//! rebuilds each column from those positions.

use vstd::prelude::*;
use crate::error::TableError;
use crate::model::{
    all_found, cell_at, column_position, copy_cell, find_column, find_columns, first_unknown,
    height_of, lemma_column_position, positions_of, row_at, row_signature, row_signature_spec,
    text_or_empty, ColumnView, DataTable, TableColumn,
};
use crate::text::{join_spec, join_texts, text_eq};
use crate::text::{
    ascii_lower, contains, contains_text, is_blank, to_ascii_lowercase, trim, trim_spec,
};

verus! {

/// The cells at `indexes`, skipping positions past the end of the column.
pub open spec fn pick(values: Seq<Option<Seq<char>>>, indexes: Seq<usize>) -> Seq<
    Option<Seq<char>>,
>
    decreases indexes.len(),
{
    if indexes.len() == 0 {
        Seq::empty()
    } else {
        let p = pick(values, indexes.drop_last());
        let ix = indexes.last() as int;
        if ix < values.len() {
            p.push(values[ix])
        } else {
            p
        }
    }
}

/// Every column restricted to the rows at `indexes`, in that order.
pub open spec fn select_spec(t: Seq<ColumnView>, indexes: Seq<usize>) -> Seq<ColumnView> {
    Seq::new(
        t.len(),
        |c: int|
            (ColumnView {
                name: t[c].name,
                logical_type: t[c].logical_type,
                values: pick(t[c].values, indexes),
            }),
    )
}

/// Positions `0..n` that satisfy `keep`, ascending.
pub open spec fn positions_where(n: nat, keep: spec_fn(int) -> bool) -> Seq<usize>
    decreases n,
{
    if n == 0 {
        Seq::empty()
    } else {
        let p = positions_where((n - 1) as nat, keep);
        if keep(n - 1) {
            p.push((n - 1) as usize)
        } else {
            p
        }
    }
}

/// Positions `start..end`.
pub open spec fn position_range(start: int, end: int) -> Seq<usize> {
    if start < end {
        Seq::new((end - start) as nat, |i: int| (start + i) as usize)
    } else {
        Seq::empty()
    }
}

/// Cells of one column at the given positions.
pub fn pick_cells(values: &Vec<Option<String>>, indexes: &Vec<usize>) -> (r: Vec<Option<String>>)
    ensures
        r.deep_view() == pick(values.deep_view(), indexes@),
{
    let mut r: Vec<Option<String>> = Vec::new();
    let mut k: usize = 0;
    while k < indexes.len()
        invariant
            0 <= k <= indexes@.len(),
            r.deep_view() == pick(values.deep_view(), indexes@.take(k as int)),
        decreases indexes.len() - k,
    {
        assert(indexes@.take(k + 1).drop_last() =~= indexes@.take(k as int));
        let ix = indexes[k];
        if ix < values.len() {
            let ghost before = r.deep_view();
            r.push(copy_cell(&values[ix]));
            assert(r.deep_view() =~= before.push(values.deep_view()[ix as int]));
        }
        k += 1;
    }
    assert(indexes@.take(indexes@.len() as int) =~= indexes@);
    r
}

/// Keeps the rows at `indexes` in every column.
pub fn select_rows(table: &DataTable, indexes: &Vec<usize>) -> (r: DataTable)
    ensures
        r@ == select_spec(table@, indexes@),
{
    let mut columns: Vec<TableColumn> = Vec::new();
    let mut c: usize = 0;
    while c < table.columns.len()
        invariant
            0 <= c <= table.columns@.len(),
            columns@.len() == c,
            forall|k: int|
                0 <= k < c ==> #[trigger] columns@[k]@ == select_spec(table@, indexes@)[k],
        decreases table.columns.len() - c,
    {
        let column = &table.columns[c];
        let values = pick_cells(&column.values, indexes);
        columns.push(
            TableColumn { name: column.name.clone(), logical_type: column.logical_type, values },
        );
        c += 1;
    }
    let r = DataTable { columns };
    assert(r@ =~= select_spec(table@, indexes@));
    r
}

/// A missing cell, or one holding only whitespace.
pub open spec fn cell_blank(v: Option<Seq<char>>) -> bool {
    match v {
        Some(s) => trim_spec(s).len() == 0,
        None => true,
    }
}

/// Whether a cell is missing or only whitespace (see `cell_blank`).
pub fn cell_blank_exec(v: &Option<String>) -> (r: bool)
    ensures
        r == cell_blank(v.deep_view()),
{
    match v {
        Some(s) => is_blank(s.as_str()),
        None => true,
    }
}

/// Every cell of row `r` is blank.
pub open spec fn row_blank(t: Seq<ColumnView>, r: int) -> bool {
    forall|c: int| 0 <= c < t.len() ==> cell_blank(#[trigger] cell_at(t[c], r))
}

/// Whether every cell of row `r` is blank (see `row_blank`).
pub fn row_blank_exec(table: &DataTable, r: usize) -> (b: bool)
    ensures
        b == row_blank(table@, r as int),
{
    let mut c: usize = 0;
    while c < table.columns.len()
        invariant
            0 <= c <= table.columns@.len(),
            forall|k: int| 0 <= k < c ==> cell_blank(#[trigger] cell_at(table@[k], r as int)),
        decreases table.columns.len() - c,
    {
        let column = &table.columns[c];
        if r < column.values.len() {
            if !cell_blank_exec(&column.values[r]) {
                assert(table@[c as int].values[r as int] == column.values@[r as int].deep_view());
                assert(!cell_blank(cell_at(table@[c as int], r as int)));
                return false;
            }
        }
        c += 1;
    }
    true
}

/// The rows that are not blank.
pub open spec fn nonblank_rows(t: Seq<ColumnView>) -> Seq<ColumnView> {
    select_spec(t, positions_where(height_of(t), |i: int| !row_blank(t, i)))
}

/// Removes rows whose cells are all blank.
pub fn drop_empty_rows(table: &DataTable) -> (r: DataTable)
    ensures
        r@ == nonblank_rows(table@),
{
    let n = table.height();
    let ghost keep = |i: int| !row_blank(table@, i);
    let mut indexes: Vec<usize> = Vec::new();
    let mut i: usize = 0;
    while i < n
        invariant
            n == height_of(table@),
            0 <= i <= n,
            keep == (|i: int| !row_blank(table@, i)),
            indexes@ == positions_where(i as nat, keep),
        decreases n - i,
    {
        let ghost before = indexes@;
        if !row_blank_exec(table, i) {
            indexes.push(i);
        }
        assert(positions_where((i + 1) as nat, keep) == if keep(i as int) {
            before.push(i)
        } else {
            before
        });
        i += 1;
    }
    select_rows(table, &indexes)
}

/// The cell holds `needle` after ASCII lower-casing.
pub open spec fn cell_contains(v: Option<Seq<char>>, needle: Seq<char>) -> bool {
    match v {
        Some(s) => contains_text(ascii_lower(s), needle),
        None => false,
    }
}

/// Rows of column `index` whose cell contains the keyword, or does not.
fn rows_matching_keyword(column: &TableColumn, needle: &str) -> (r: Vec<usize>)
    ensures
        r@ == positions_where(
            column@.values.len(),
            |i: int| cell_contains(column@.values[i], needle@),
        ),
{
    let ghost keep = |i: int| cell_contains(column@.values[i], needle@);
    let mut indexes: Vec<usize> = Vec::new();
    let mut i: usize = 0;
    while i < column.values.len()
        invariant
            0 <= i <= column.values@.len(),
            keep == (|i: int| cell_contains(column@.values[i], needle@)),
            indexes@ == positions_where(i as nat, keep),
        decreases column.values.len() - i,
    {
        let matched = match &column.values[i] {
            Some(cell) => {
                let lower = to_ascii_lowercase(cell.as_str());
                contains(lower.as_str(), needle)
            },
            None => false,
        };
        assert(matched == cell_contains(column@.values[i as int], needle@));
        let ghost before = indexes@;
        if matched {
            indexes.push(i);
        }
        assert(positions_where((i + 1) as nat, keep) == if keep(i as int) {
            before.push(i)
        } else {
            before
        });
        i += 1;
    }
    indexes
}

/// The rows whose cell in `column` contains the trimmed keyword, ignoring ASCII
/// case; refused without a column or keyword, or for an unknown column.
pub open spec fn keyword_filter_spec(
    t: Seq<ColumnView>,
    column: Seq<char>,
    keyword: Seq<char>,
) -> Result<Seq<ColumnView>, ()> {
    if trim_spec(column).len() == 0 || trim_spec(keyword).len() == 0 {
        Err(())
    } else {
        match column_position(t, column) {
            None => Err(()),
            Some(c) => Ok(
                select_spec(
                    t,
                    positions_where(
                        t[c].values.len(),
                        |i: int|
                            cell_contains(t[c].values[i], ascii_lower(trim_spec(keyword))),
                    ),
                ),
            ),
        }
    }
}

fn keyword_filter(table: &DataTable, column: &str, keyword: &str) -> (r: Result<
    DataTable,
    TableError,
>)
    ensures
        match r {
            Ok(t) => keyword_filter_spec(table@, column@, keyword@) == Ok::<
                Seq<ColumnView>,
                (),
            >(t@),
            Err(e) => keyword_filter_spec(table@, column@, keyword@) is Err && (if trim_spec(
                column@,
            ).len() == 0 || trim_spec(keyword@).len() == 0 {
                e == TableError::MissingColumnOrKeyword
            } else {
                e matches TableError::ColumnNotFound(n) && n@ == column@
            }),
        },
{
    if is_blank(column) || is_blank(keyword) {
        return Err(TableError::MissingColumnOrKeyword);
    }
    let index = match find_column(table, column) {
        Some(i) => i,
        None => return Err(TableError::ColumnNotFound(column.to_owned())),
    };
    proof {
        lemma_column_position(table@, column@);
    }
    let trimmed = trim(keyword);
    let needle = to_ascii_lowercase(trimmed.as_str());
    let keep = rows_matching_keyword(&table.columns[index], needle.as_str());
    let r = select_rows(table, &keep);
    proof {
        let c = index as int;
        assert(table@[c] == table.columns@[c]@);
        assert(keep@ == positions_where(
            table@[c].values.len(),
            |i: int| cell_contains(table@[c].values[i], ascii_lower(trim_spec(keyword@))),
        ));
    }
    Ok(r)
}

/// The outcome of a keyword filter: refused without a column or keyword, or for
/// an unknown column.
pub open spec fn keyword_outcome(
    t: Seq<ColumnView>,
    column: Seq<char>,
    keyword: Seq<char>,
    r: Result<DataTable, TableError>,
) -> bool {
    match r {
        Ok(out) => keyword_filter_spec(t, column, keyword) == Ok::<Seq<ColumnView>, ()>(
            out@,
        ),
        Err(e) => keyword_filter_spec(t, column, keyword) is Err && (if trim_spec(column).len()
            == 0 || trim_spec(keyword).len() == 0 {
            e == TableError::MissingColumnOrKeyword
        } else {
            e matches TableError::ColumnNotFound(n) && n@ == column
        }),
    }
}

/// Keeps rows whose cell in `column` contains `keyword` (trimmed), ignoring ASCII case.
pub fn filter_rows_contains(table: &DataTable, column: &str, keyword: &str) -> (r: Result<
    DataTable,
    TableError,
>)
    ensures
        keyword_outcome(table@, column@, keyword@, r),
{
    keyword_filter(table, column, keyword)
}

/// Deletes the rows whose cell in `column` does not contain `keyword` (trimmed),
/// ignoring ASCII case: the rows that hold it are kept, in order, as
/// `filter_rows_contains` keeps them.
pub fn drop_rows_not_contains(table: &DataTable, column: &str, keyword: &str) -> (r: Result<
    DataTable,
    TableError,
>)
    ensures
        keyword_outcome(table@, column@, keyword@, r),
{
    keyword_filter(table, column, keyword)
}

} // verus!

verus! {

/// All rows, each as its cells across the columns.
pub fn table_rows(table: &DataTable) -> (r: Vec<Vec<Option<String>>>)
    ensures
        r@.len() == height_of(table@),
        forall|i: int|
            0 <= i < r@.len() ==> #[trigger] r@[i].deep_view() == row_at(table@, i),
{
    let n = table.height();
    let mut out: Vec<Vec<Option<String>>> = Vec::new();
    let mut i: usize = 0;
    while i < n
        invariant
            n == height_of(table@),
            0 <= i <= n,
            out@.len() == i,
            forall|k: int| 0 <= k < i ==> #[trigger] out@[k].deep_view() == row_at(table@, k),
        decreases n - i,
    {
        out.push(table.row(i));
        i += 1;
    }
    out
}

/// Cells of a row at the key positions joined with `|`; absent cells read as empty.
pub open spec fn key_spec(row: Seq<Option<Seq<char>>>, indexes: Seq<usize>) -> Seq<char> {
    join_spec(
        Seq::new(
            indexes.len(),
            |k: int|
                if (indexes[k] as int) < row.len() {
                    text_or_empty(row[indexes[k] as int])
                } else {
                    Seq::empty()
                },
        ),
        seq!['|'],
    )
}

/// The key of a row over the given column positions.
pub fn compose_key(row: &Vec<Option<String>>, indexes: &Vec<usize>) -> (r: String)
    ensures
        r@ == key_spec(row.deep_view(), indexes@),
{
    let mut parts: Vec<String> = Vec::new();
    let mut k: usize = 0;
    while k < indexes.len()
        invariant
            0 <= k <= indexes@.len(),
            parts@.len() == k,
            forall|m: int|
                0 <= m < k ==> #[trigger] parts@[m]@ == (if (indexes@[m] as int) < row@.len() {
                    text_or_empty(row.deep_view()[indexes@[m] as int])
                } else {
                    Seq::<char>::empty()
                }),
        decreases indexes.len() - k,
    {
        let ix = indexes[k];
        if ix < row.len() {
            match &row[ix] {
                Some(s) => parts.push(s.clone()),
                None => parts.push(String::new()),
            }
        } else {
            parts.push(String::new());
        }
        k += 1;
    }
    proof {
        reveal_strlit("|");
        assert("|"@ =~= seq!['|']);
    }
    let r = join_texts(&parts, "|");
    assert(parts.deep_view() =~= Seq::new(
        indexes@.len(),
        |k: int|
            if (indexes@[k] as int) < row.deep_view().len() {
                text_or_empty(row.deep_view()[indexes@[k] as int])
            } else {
                Seq::empty()
            },
    ));
    r
}

/// No earlier position holds the same key.
pub open spec fn first_of_its_key(keys: Seq<Seq<char>>, i: int) -> bool {
    forall|j: int| 0 <= j < i ==> keys[j] != keys[i]
}

/// Positions whose key appears there for the first time.
pub fn first_occurrences(keys: &Vec<String>) -> (r: Vec<usize>)
    ensures
        r@ == positions_where(keys@.len(), |i: int| first_of_its_key(keys.deep_view(), i)),
{
    let ghost ks = keys.deep_view();
    let ghost keep = |i: int| first_of_its_key(ks, i);
    let flags = crate::mergesort::first_occurrence_flags(keys);
    let mut out: Vec<usize> = Vec::new();
    let mut i: usize = 0;
    while i < keys.len()
        invariant
            ks == keys.deep_view(),
            keep == (|i: int| first_of_its_key(ks, i)),
            0 <= i <= keys@.len(),
            flags@.len() == keys@.len(),
            forall|x: int| 0 <= x < keys@.len() ==> flags@[x] == crate::mergesort::first_of_text(ks, x),
            out@ == positions_where(i as nat, keep),
        decreases keys.len() - i,
    {
        assert(crate::mergesort::first_of_text(ks, i as int) == first_of_its_key(ks, i as int));
        let ghost before = out@;
        if flags[i] {
            out.push(i);
        }
        assert(positions_where((i + 1) as nat, keep) == if keep(i as int) {
            before.push(i)
        } else {
            before
        });
        i += 1;
    }
    out
}

/// The first row of each distinct row signature.
pub open spec fn distinct_rows(t: Seq<ColumnView>) -> Seq<ColumnView> {
    select_spec(
        t,
        positions_where(
            height_of(t),
            |i: int|
                first_of_its_key(
                    Seq::new(height_of(t), |k: int| row_signature_spec(row_at(t, k))),
                    i,
                ),
        ),
    )
}

/// The positions kept by a filter come in increasing order.
proof fn lemma_positions_increasing(n: nat, keep: spec_fn(int) -> bool, a: int, b: int)
    requires
        0 <= a < b < positions_where(n, keep).len(),
        n <= usize::MAX,
    ensures
        positions_where(n, keep)[a] < positions_where(n, keep)[b],
    decreases n,
{
    let p = positions_where((n - 1) as nat, keep);
    if keep(n - 1) && b == p.len() {
        crate::preview::lemma_positions_where_bound((n - 1) as nat, keep, a);
    } else {
        lemma_positions_increasing((n - 1) as nat, keep, a, b);
    }
}

/// Picking cells at indexes inside the column takes exactly those cells.
pub proof fn lemma_pick_at(values: Seq<Option<Seq<char>>>, indexes: Seq<usize>, k: int)
    requires
        forall|m: int| 0 <= m < indexes.len() ==> (#[trigger] indexes[m] as int) < values.len(),
        0 <= k < indexes.len(),
    ensures
        pick(values, indexes).len() == indexes.len(),
        pick(values, indexes)[k] == values[indexes[k] as int],
    decreases indexes.len(),
{
    let d = indexes.drop_last();
    assert forall|m: int| 0 <= m < d.len() implies (#[trigger] d[m] as int) < values.len() by {
        assert(d[m] == indexes[m]);
    }
    assert(indexes[indexes.len() - 1] as int == indexes.last() as int);
    if k < indexes.len() - 1 {
        lemma_pick_at(values, d, k);
    } else if d.len() > 0 {
        lemma_pick_at(values, d, 0);
    } else {
        assert(pick(values, d).len() == 0);
    }
}

/// A row of a selection is the row of the table at the selected position,
/// for a table whose columns all have its height.
proof fn lemma_select_row(t: Seq<ColumnView>, indexes: Seq<usize>, k: int)
    requires
        forall|c: int| 0 <= c < t.len() ==> #[trigger] t[c].values.len() == height_of(t),
        forall|m: int| 0 <= m < indexes.len() ==> (#[trigger] indexes[m] as int) < height_of(t),
        0 <= k < indexes.len(),
    ensures
        row_at(select_spec(t, indexes), k) == row_at(t, indexes[k] as int),
        t.len() > 0 ==> height_of(select_spec(t, indexes)) == indexes.len(),
{
    let sel = select_spec(t, indexes);
    assert forall|c: int| 0 <= c < t.len() implies #[trigger] cell_at(sel[c], k) == cell_at(t[c], indexes[k] as int) by {
        lemma_pick_at(t[c].values, indexes, k);
    }
    if t.len() > 0 {
        lemma_pick_at(t[0].values, indexes, k);
    }
    assert(row_at(sel, k) =~= row_at(t, indexes[k] as int));
}

/// After removing duplicate rows no two rows are alike: the rows of the
/// result have pairwise different signatures (for a table whose columns all
/// have its height).
pub proof fn lemma_distinct_rows_unique(t: Seq<ColumnView>, a: int, b: int)
    requires
        forall|c: int| 0 <= c < t.len() ==> #[trigger] t[c].values.len() == height_of(t),
        height_of(t) <= usize::MAX,
        0 <= a < b < height_of(distinct_rows(t)),
    ensures
        row_signature_spec(row_at(distinct_rows(t), a)) != row_signature_spec(row_at(distinct_rows(t), b)),
{
    let h = height_of(t);
    let sigs = Seq::new(h, |k: int| row_signature_spec(row_at(t, k)));
    let keep = |i: int| first_of_its_key(sigs, i);
    let pos = positions_where(h, keep);
    assert(distinct_rows(t) == select_spec(t, pos));
    assert forall|m: int| 0 <= m < pos.len() implies (#[trigger] pos[m] as int) < h by {
        crate::preview::lemma_positions_where_bound(h, keep, m);
    }
    lemma_select_row(t, pos, 0);
    assert(b < pos.len());
    lemma_select_row(t, pos, a);
    lemma_select_row(t, pos, b);
    lemma_positions_increasing(h, keep, a, b);
    crate::preview::lemma_positions_where_bound(h, keep, b);
    assert(keep(pos[b] as int));
    assert(sigs[pos[a] as int] != sigs[pos[b] as int]);
}

/// Keeps the first row of each distinct row signature.
pub fn deduplicate_rows(table: &DataTable) -> (r: DataTable)
    ensures
        r@ == distinct_rows(table@),
{
    let rows = table_rows(table);
    let mut keys: Vec<String> = Vec::new();
    let mut i: usize = 0;
    while i < rows.len()
        invariant
            rows@.len() == height_of(table@),
            forall|k: int|
                0 <= k < rows@.len() ==> #[trigger] rows@[k].deep_view() == row_at(table@, k),
            0 <= i <= rows@.len(),
            keys@.len() == i,
            forall|k: int|
                0 <= k < i ==> #[trigger] keys@[k]@ == row_signature_spec(row_at(table@, k)),
        decreases rows.len() - i,
    {
        keys.push(row_signature(&rows[i]));
        i += 1;
    }
    assert(keys.deep_view() =~= Seq::new(
        height_of(table@),
        |k: int| row_signature_spec(row_at(table@, k)),
    ));
    let keep = first_occurrences(&keys);
    select_rows(table, &keep)
}

/// The first row of each distinct key over the columns at `idx`.
pub open spec fn distinct_by_key(t: Seq<ColumnView>, idx: Seq<usize>) -> Seq<ColumnView> {
    select_spec(
        t,
        positions_where(
            height_of(t),
            |i: int|
                first_of_its_key(
                    Seq::new(height_of(t), |k: int| key_spec(row_at(t, k), idx)),
                    i,
                ),
        ),
    )
}

/// The outcome of deduplicating by named columns.
pub open spec fn dedup_by_columns_outcome(
    t: Seq<ColumnView>,
    names: Seq<Seq<char>>,
    r: Result<DataTable, TableError>,
) -> bool {
    if names.len() == 0 {
        r == Err::<DataTable, TableError>(TableError::EmptyColumnList)
    } else if !all_found(t, names) {
        r matches Err(e) && first_unknown(t, names) matches Some(k)
            && e matches TableError::ColumnNotFound(n) && n@ == names[k]
    } else {
        r matches Ok(out) && out@ == distinct_by_key(t, positions_of(t, names))
    }
}

/// After dropping empty rows, no row of the result is blank (for a table
/// whose columns all have its height).
pub proof fn lemma_nonblank_rows_have_content(t: Seq<ColumnView>, a: int)
    requires
        forall|c: int| 0 <= c < t.len() ==> #[trigger] t[c].values.len() == height_of(t),
        height_of(t) <= usize::MAX,
        0 <= a < height_of(nonblank_rows(t)),
    ensures
        !row_blank(nonblank_rows(t), a),
{
    let h = height_of(t);
    let keep = |i: int| !row_blank(t, i);
    let pos = positions_where(h, keep);
    let sel = select_spec(t, pos);
    assert(nonblank_rows(t) == sel);
    assert forall|m: int| 0 <= m < pos.len() implies (#[trigger] pos[m] as int) < h by {
        crate::preview::lemma_positions_where_bound(h, keep, m);
    }
    lemma_select_row(t, pos, 0);
    lemma_select_row(t, pos, a);
    crate::preview::lemma_positions_where_bound(h, keep, a);
    assert(keep(pos[a] as int));
    let c = choose|c: int| 0 <= c < t.len() && !cell_blank(#[trigger] cell_at(t[c], pos[a] as int));
    assert(row_at(sel, a)[c] == row_at(t, pos[a] as int)[c]);
    assert(!cell_blank(cell_at(sel[c], a)));
}

/// A filter and its opposite together keep every position once.
proof fn lemma_positions_complement(n: nat, keep: spec_fn(int) -> bool, other: spec_fn(int) -> bool)
    requires
        forall|i: int| #[trigger] other(i) == !keep(i),
    ensures
        positions_where(n, keep).len() + positions_where(n, other).len() == n,
    decreases n,
{
    if n > 0 {
        lemma_positions_complement((n - 1) as nat, keep, other);
        assert(other(n - 1) == !keep(n - 1));
    }
}

/// Picking cells at indexes inside the column takes one cell per index.
pub proof fn lemma_pick_len(values: Seq<Option<Seq<char>>>, indexes: Seq<usize>)
    requires
        forall|m: int| 0 <= m < indexes.len() ==> (#[trigger] indexes[m] as int) < values.len(),
    ensures
        pick(values, indexes).len() == indexes.len(),
    decreases indexes.len(),
{
    if indexes.len() > 0 {
        let d = indexes.drop_last();
        assert forall|m: int| 0 <= m < d.len() implies (#[trigger] d[m] as int) < values.len() by {
            assert(d[m] == indexes[m]);
        }
        assert(indexes[indexes.len() - 1] as int == indexes.last() as int);
        lemma_pick_len(values, d);
    }
}

/// A selection of rows below a table's height has one row per position.
proof fn lemma_select_height(t: Seq<ColumnView>, keep: spec_fn(int) -> bool)
    requires
        forall|c: int| 0 <= c < t.len() ==> #[trigger] t[c].values.len() == height_of(t),
        height_of(t) <= usize::MAX,
        t.len() > 0,
    ensures
        height_of(select_spec(t, positions_where(height_of(t), keep))) == positions_where(height_of(t), keep).len(),
{
    let pos = positions_where(height_of(t), keep);
    assert forall|m: int| 0 <= m < pos.len() implies (#[trigger] pos[m] as int) < t[0].values.len() by {
        crate::preview::lemma_positions_where_bound(height_of(t), keep, m);
    }
    lemma_pick_len(t[0].values, pos);
}

/// Keeping the rows with a blank target cell and removing them split a table:
/// both are refused or both succeed, and then their rows add up to the
/// table's rows (for a table whose columns all have its height).
pub proof fn lemma_missing_filters_split(t: Seq<ColumnView>, names: Seq<Seq<char>>)
    requires
        forall|c: int| 0 <= c < t.len() ==> #[trigger] t[c].values.len() == height_of(t),
        height_of(t) <= usize::MAX,
    ensures
        height_of(select_spec(t, positions_where(height_of(t), missing_matches(t, names, true))))
            + height_of(select_spec(t, positions_where(height_of(t), missing_matches(t, names, false))))
            == height_of(t),
{
    if t.len() > 0 {
        let yes = missing_matches(t, names, true);
        let no = missing_matches(t, names, false);
        lemma_positions_complement(height_of(t), yes, no);
        lemma_select_height(t, yes);
        lemma_select_height(t, no);
    }
}

/// Keeping the 1-based rows `start..=end` and removing them split a table:
/// their rows add up to the table's rows (for a valid range and a table whose
/// columns all have its height).
pub proof fn lemma_row_range_split(t: Seq<ColumnView>, start: int, end: int)
    requires
        forall|c: int| 0 <= c < t.len() ==> #[trigger] t[c].values.len() == height_of(t),
        height_of(t) <= usize::MAX,
        1 <= start <= end,
    ensures
        height_of(select_spec(t, position_range(start - 1, if end <= height_of(t) { end } else { height_of(t) as int })))
            + height_of(select_spec(t, positions_where(height_of(t), outside_range(start, end)))) == height_of(t),
{
    if t.len() > 0 {
        let h = height_of(t);
        let stop = if end <= h { end } else { h as int };
        let inside = |i: int| !(i + 1 < start || i + 1 > end);
        let out = outside_range(start, end);
        lemma_positions_complement(h, inside, out);
        lemma_select_height(t, out);
        lemma_select_height(t, inside);
        lemma_inside_positions(h, start, end);
        let r = position_range(start - 1, stop);
        assert forall|m: int| 0 <= m < r.len() implies (#[trigger] r[m] as int) < t[0].values.len() by {}
        lemma_pick_len(t[0].values, r);
    }
}

/// The positions of a table's rows inside `start..=end` (1-based) are the
/// range from `start - 1` up to `end` or the height.
proof fn lemma_inside_positions(h: nat, start: int, end: int)
    requires
        1 <= start <= end,
        h <= usize::MAX,
    ensures
        positions_where(h, |i: int| !(i + 1 < start || i + 1 > end)) =~= position_range(
            start - 1,
            if end <= h { end } else { h as int },
        ),
    decreases h,
{
    if h > 0 {
        lemma_inside_positions((h - 1) as nat, start, end);
    }
}

/// After removing rows that repeat a key, no two rows share a key (for a
/// table whose columns all have its height).
pub proof fn lemma_distinct_by_key_unique(t: Seq<ColumnView>, idx: Seq<usize>, a: int, b: int)
    requires
        forall|c: int| 0 <= c < t.len() ==> #[trigger] t[c].values.len() == height_of(t),
        height_of(t) <= usize::MAX,
        0 <= a < b < height_of(distinct_by_key(t, idx)),
    ensures
        key_spec(row_at(distinct_by_key(t, idx), a), idx) != key_spec(row_at(distinct_by_key(t, idx), b), idx),
{
    let h = height_of(t);
    let keys = Seq::new(h, |k: int| key_spec(row_at(t, k), idx));
    let keep = |i: int| first_of_its_key(keys, i);
    let pos = positions_where(h, keep);
    assert(distinct_by_key(t, idx) == select_spec(t, pos));
    assert forall|m: int| 0 <= m < pos.len() implies (#[trigger] pos[m] as int) < h by {
        crate::preview::lemma_positions_where_bound(h, keep, m);
    }
    lemma_select_row(t, pos, 0);
    lemma_select_row(t, pos, a);
    lemma_select_row(t, pos, b);
    lemma_positions_increasing(h, keep, a, b);
    crate::preview::lemma_positions_where_bound(h, keep, b);
    assert(keep(pos[b] as int));
    assert(keys[pos[a] as int] != keys[pos[b] as int]);
}

/// Keeps the first row of each distinct key over the named columns.
pub fn deduplicate_by_columns(table: &DataTable, columns: &Vec<String>) -> (r: Result<
    DataTable,
    TableError,
>)
    ensures
        dedup_by_columns_outcome(table@, columns.deep_view(), r),
{
    if columns.len() == 0 {
        return Err(TableError::EmptyColumnList);
    }
    let indexes = match find_columns(table, columns) {
        Ok(v) => v,
        Err(e) => {
            proof {
                crate::model::lemma_first_unknown(table@, columns.deep_view());
            }
            return Err(e);
        },
    };
    let rows = table_rows(table);
    let mut keys: Vec<String> = Vec::new();
    let mut i: usize = 0;
    while i < rows.len()
        invariant
            rows@.len() == height_of(table@),
            forall|k: int|
                0 <= k < rows@.len() ==> #[trigger] rows@[k].deep_view() == row_at(table@, k),
            indexes@ == positions_of(table@, columns.deep_view()),
            0 <= i <= rows@.len(),
            keys@.len() == i,
            forall|k: int|
                0 <= k < i ==> #[trigger] keys@[k]@ == key_spec(row_at(table@, k), indexes@),
        decreases rows.len() - i,
    {
        keys.push(compose_key(&rows[i], &indexes));
        i += 1;
    }
    assert(keys.deep_view() =~= Seq::new(
        height_of(table@),
        |k: int| key_spec(row_at(table@, k), positions_of(table@, columns.deep_view())),
    ));
    let keep = first_occurrences(&keys);
    Ok(select_rows(table, &keep))
}

/// Builds the positions `start..end`.
pub fn range_positions(start: usize, end: usize) -> (r: Vec<usize>)
    ensures
        r@ == position_range(start as int, end as int),
{
    let mut out: Vec<usize> = Vec::new();
    let mut i = start;
    while i < end
        invariant
            start <= i <= end || (start >= end && i == start),
            out@ == position_range(start as int, i as int),
        decreases end - i,
    {
        out.push(i);
        assert(out@ =~= position_range(start as int, i + 1));
        i += 1;
    }
    assert(out@ =~= position_range(start as int, end as int));
    out
}

/// The outcome of keeping the 1-based rows `start..=end`.
pub open spec fn keep_row_range_outcome(
    t: Seq<ColumnView>,
    start: int,
    end: int,
    r: Result<DataTable, TableError>,
) -> bool {
    if start == 0 || end == 0 || end < start {
        r == Err::<DataTable, TableError>(TableError::InvalidRowRange)
    } else {
        r matches Ok(out) && out@ == select_spec(
            t,
            position_range(
                start - 1,
                if end <= height_of(t) {
                    end
                } else {
                    height_of(t) as int
                },
            ),
        )
    }
}

/// Keeps the 1-based rows `start..=end` (clipped to the table).
pub fn keep_row_range(table: &DataTable, start: usize, end: usize) -> (r: Result<
    DataTable,
    TableError,
>)
    ensures
        keep_row_range_outcome(table@, start as int, end as int, r),
{
    if start == 0 || end == 0 || end < start {
        return Err(TableError::InvalidRowRange);
    }
    let h = table.height();
    let stop = if end <= h { end } else { h };
    let keep = range_positions(start - 1, stop);
    Ok(select_rows(table, &keep))
}

/// The outcome of keeping the first `count` rows.
pub open spec fn keep_top_rows_outcome(t: Seq<ColumnView>, count: int, r: Result<DataTable, TableError>) -> bool {
    if count == 0 {
        r == Err::<DataTable, TableError>(TableError::ZeroCount)
    } else {
        r matches Ok(out) && out@ == select_spec(
            t,
            position_range(
                0,
                if count <= height_of(t) {
                    count
                } else {
                    height_of(t) as int
                },
            ),
        )
    }
}

/// Keeps the first `count` rows.
pub fn keep_top_rows(table: &DataTable, count: usize) -> (r: Result<DataTable, TableError>)
    ensures
        keep_top_rows_outcome(table@, count as int, r),
{
    if count == 0 {
        return Err(TableError::ZeroCount);
    }
    let h = table.height();
    let stop = if count <= h { count } else { h };
    let keep = range_positions(0, stop);
    Ok(select_rows(table, &keep))
}

/// Whether the 1-based line of row `i` lies outside `start..=end`.
pub open spec fn outside_range(start: int, end: int) -> spec_fn(int) -> bool {
    |i: int| i + 1 < start || i + 1 > end
}

/// The outcome of removing the 1-based rows `start..=end`.
pub open spec fn drop_row_range_outcome(
    t: Seq<ColumnView>,
    start: int,
    end: int,
    r: Result<DataTable, TableError>,
) -> bool {
    if start == 0 || end == 0 || end < start {
        r == Err::<DataTable, TableError>(TableError::InvalidRowRange)
    } else {
        r matches Ok(out) && out@ == select_spec(
            t,
            positions_where(height_of(t), outside_range(start, end)),
        )
    }
}

/// Removes the 1-based rows `start..=end`.
pub fn drop_row_range(table: &DataTable, start: usize, end: usize) -> (r: Result<
    DataTable,
    TableError,
>)
    ensures
        drop_row_range_outcome(table@, start as int, end as int, r),
{
    if start == 0 || end == 0 || end < start {
        return Err(TableError::InvalidRowRange);
    }
    let n = table.height();
    let ghost keep = outside_range(start as int, end as int);
    let mut indexes: Vec<usize> = Vec::new();
    let mut i: usize = 0;
    while i < n
        invariant
            n == height_of(table@),
            0 <= i <= n,
            keep == outside_range(start as int, end as int),
            indexes@ == positions_where(i as nat, keep),
        decreases n - i,
    {
        let ghost before = indexes@;
        let line = i + 1;
        if line < start || line > end {
            indexes.push(i);
        }
        assert(positions_where((i + 1) as nat, keep) == if keep(i as int) {
            before.push(i)
        } else {
            before
        });
        i += 1;
    }
    Ok(select_rows(table, &indexes))
}

/// Drops each element equal to its predecessor.
pub open spec fn dedup_adjacent(s: Seq<usize>) -> Seq<usize>
    decreases s.len(),
{
    if s.len() <= 1 {
        s
    } else if s.last() == s[s.len() - 2] {
        dedup_adjacent(s.drop_last())
    } else {
        dedup_adjacent(s.drop_last()).push(s.last())
    }
}

/// Evenly spaced sample positions `i * (height - 1) / max(count - 1, 1)` for
/// `i < count`, each value once, ascending.
pub open spec fn sample_positions(count: nat, height: nat) -> Seq<usize> {
    let max_index = height - 1;
    let step_div = if count >= 2 {
        count - 1
    } else {
        1
    };
    dedup_adjacent(Seq::new(count, |i: int| (i * max_index / step_div) as usize))
}

proof fn lemma_dedup_last(s: Seq<usize>)
    requires
        s.len() > 0,
    ensures
        dedup_adjacent(s).len() > 0,
        dedup_adjacent(s).last() == s.last(),
    decreases s.len(),
{
    if s.len() > 1 {
        lemma_dedup_last(s.drop_last());
    }
}

/// The outcome of sampling `count` rows.
pub open spec fn sample_rows_outcome(t: Seq<ColumnView>, count: nat, r: Result<DataTable, TableError>) -> bool {
    if count == 0 {
        r == Err::<DataTable, TableError>(TableError::ZeroCount)
    } else if count >= height_of(t) {
        r matches Ok(out) && out@ == t
    } else {
        r matches Ok(out) && out@ == select_spec(t, sample_positions(count, height_of(t)))
    }
}

/// Keeps `count` evenly spaced rows (all rows when `count` reaches the height).
pub fn sample_rows(table: &DataTable, count: usize) -> (r: Result<DataTable, TableError>)
    ensures
        sample_rows_outcome(table@, count as nat, r),
{
    if count == 0 {
        return Err(TableError::ZeroCount);
    }
    let h = table.height();
    if count >= h {
        return Ok(table.duplicate());
    }
    let max_index = h - 1;
    let step_div: usize = if count >= 2 { count - 1 } else { 1 };
    let ghost f = |i: int| (i * (max_index as int) / (step_div as int)) as usize;
    let mut indexes: Vec<usize> = Vec::new();
    let mut i: usize = 0;
    while i < count
        invariant
            count < h,
            max_index == h - 1,
            step_div >= 1,
            step_div == (if count >= 2 { count - 1 } else { 1 }),
            f == (|i: int| (i * (max_index as int) / (step_div as int)) as usize),
            0 <= i <= count,
            indexes@ == dedup_adjacent(Seq::new(i as nat, f)),
            i > 0 ==> indexes@.len() > 0 && indexes@.last() == f(i - 1),
        decreases count - i,
    {
        assert((i as u128) * (max_index as u128) <= 0xffff_ffff_ffff_ffff_ffff_ffff_ffff_ffffu128)
            by (nonlinear_arith)
            requires
                i <= 0xffff_ffff_ffff_ffffu128,
                max_index <= 0xffff_ffff_ffff_ffffu128,
        ;
        let product: u128 = (i as u128) * (max_index as u128);
        assert(product == i * max_index) by (nonlinear_arith)
            requires
                product == (i as u128) * (max_index as u128),
        ;
        let q: u128 = product / (step_div as u128);
        assert(q <= product) by (nonlinear_arith)
            requires
                q == product / (step_div as u128),
                step_div >= 1,
        ;
        assert(i * max_index <= count * max_index) by (nonlinear_arith)
            requires
                i <= count,
                max_index >= 0,
        ;
        assert(q <= i * (max_index as int) / (step_div as int)) by (nonlinear_arith)
            requires
                q == product / (step_div as u128),
                product == i * max_index,
        ;
        assert(i * (max_index as int) / (step_div as int) <= max_index) by (nonlinear_arith)
            requires
                i < count,
                step_div >= 1,
                count <= step_div + 1,
                max_index >= 0,
        ;
        let v: usize = q as usize;
        assert(v == f(i as int));
        let ghost src = Seq::new((i + 1) as nat, f);
        assert(src.drop_last() =~= Seq::new(i as nat, f));
        let ghost before = indexes@;
        if i == 0 || indexes[indexes.len() - 1] != v {
            indexes.push(v);
        }
        proof {
            if i > 0 {
                assert(src[src.len() - 2] == f(i - 1));
            }
            lemma_dedup_last(src);
        }
        i += 1;
    }
    Ok(select_rows(table, &indexes))
}

/// Row `r` has a blank cell in one of the target columns.
pub open spec fn row_has_missing(t: Seq<ColumnView>, targets: Seq<usize>, r: int) -> bool {
    exists|k: int| 0 <= k < targets.len() && cell_blank(#[trigger] cell_at(t[targets[k] as int], r))
}

/// Target columns: the named ones, or all columns when no name is given.
pub open spec fn missing_targets(t: Seq<ColumnView>, names: Seq<Seq<char>>) -> Seq<usize> {
    if names.len() == 0 {
        Seq::new(t.len(), |i: int| i as usize)
    } else {
        positions_of(t, names)
    }
}

/// Whether row `i` has a blank cell in the target columns exactly when
/// `keep_missing` says so.
pub open spec fn missing_matches(t: Seq<ColumnView>, names: Seq<Seq<char>>, keep_missing: bool) -> spec_fn(
    int,
) -> bool {
    |i: int| row_has_missing(t, missing_targets(t, names), i) == keep_missing
}

/// The outcome of keeping rows by whether they have a blank target cell.
pub open spec fn missing_outcome(
    t: Seq<ColumnView>,
    names: Seq<Seq<char>>,
    keep_missing: bool,
    r: Result<DataTable, TableError>,
) -> bool {
    &&& r is Ok <==> names.len() == 0 || all_found(t, names)
    &&& r matches Err(e) ==> first_unknown(t, names) matches Some(k)
        && e matches TableError::ColumnNotFound(n) && n@ == names[k]
    &&& r matches Ok(out) ==> out@ == select_spec(
        t,
        positions_where(height_of(t), missing_matches(t, names, keep_missing)),
    )
}

/// Keeping the rows with a missing target cell and dropping them partition a
/// table: the two calls are refused together or succeed together, and then
/// their heights add up to the table's height (for a table whose columns all
/// have its height).
pub proof fn lemma_missing_outcomes_split(
    t: Seq<ColumnView>,
    names: Seq<Seq<char>>,
    kept: Result<DataTable, TableError>,
    dropped: Result<DataTable, TableError>,
)
    requires
        forall|c: int| 0 <= c < t.len() ==> #[trigger] t[c].values.len() == height_of(t),
        height_of(t) <= usize::MAX,
        missing_outcome(t, names, true, kept),
        missing_outcome(t, names, false, dropped),
    ensures
        kept is Ok <==> dropped is Ok,
        kept matches Ok(a) ==> dropped matches Ok(b) && height_of(a@) + height_of(b@) == height_of(t),
{
    lemma_missing_filters_split(t, names);
}

/// Keeps the rows that have (or, with `keep_missing` false, lack) a blank cell in
/// the target columns.
pub fn filter_rows_by_missing(table: &DataTable, columns: &Vec<String>, keep_missing: bool) -> (r:
    Result<DataTable, TableError>)
    ensures
        missing_outcome(table@, columns.deep_view(), keep_missing, r),
{
    let targets: Vec<usize> = if columns.len() == 0 {
        range_positions(0, table.columns.len())
    } else {
        match find_columns(table, columns) {
            Ok(v) => v,
            Err(e) => {
                proof {
                    crate::model::lemma_first_unknown(table@, columns.deep_view());
                }
                return Err(e);
            },
        }
    };
    assert(targets@ =~= missing_targets(table@, columns.deep_view()));
    proof {
        if columns@.len() > 0 {
            assert forall|k: int| 0 <= k < targets@.len() implies (targets@[k] as int) < table@.len() by {
                crate::model::lemma_column_position(table@, columns.deep_view()[k]);
                assert(column_position(table@, columns.deep_view()[k]) is Some);
            }
        }
    }
    let n = table.height();
    let ghost keep = missing_matches(table@, columns.deep_view(), keep_missing);
    let mut indexes: Vec<usize> = Vec::new();
    let mut i: usize = 0;
    while i < n
        invariant
            n == height_of(table@),
            forall|k: int| 0 <= k < targets@.len() ==> (targets@[k] as int) < table@.len(),
            0 <= i <= n,
            targets@ == missing_targets(table@, columns.deep_view()),
            keep == missing_matches(table@, columns.deep_view(), keep_missing),
            indexes@ == positions_where(i as nat, keep),
        decreases n - i,
    {
        let mut has_missing = false;
        let mut k: usize = 0;
        while k < targets.len()
            invariant
                forall|m: int| 0 <= m < targets@.len() ==> (targets@[m] as int) < table@.len(),
                0 <= k <= targets@.len(),
                has_missing == exists|m: int|
                    0 <= m < k && cell_blank(#[trigger] cell_at(table@[targets@[m] as int], i as int)),
            decreases targets.len() - k,
        {
            let column = &table.columns[targets[k]];
            let blank = if i < column.values.len() {
                cell_blank_exec(&column.values[i])
            } else {
                true
            };
            assert(blank == cell_blank(cell_at(table@[targets@[k as int] as int], i as int)));
            if blank {
                has_missing = true;
            }
            k += 1;
        }
        let ghost before = indexes@;
        if has_missing == keep_missing {
            indexes.push(i);
        }
        assert(positions_where((i + 1) as nat, keep) == if keep(i as int) {
            before.push(i)
        } else {
            before
        });
        i += 1;
    }
    Ok(select_rows(table, &indexes))
}

/// Keeps the rows with a blank cell in the named columns (all columns if none named).
pub fn keep_rows_with_missing(table: &DataTable, columns: &Vec<String>) -> (r: Result<
    DataTable,
    TableError,
>)
    ensures
        missing_outcome(table@, columns.deep_view(), true, r),
{
    filter_rows_by_missing(table, columns, true)
}

/// Removes the rows with a blank cell in the named columns (all columns if none named).
pub fn drop_rows_with_missing(table: &DataTable, columns: &Vec<String>) -> (r: Result<
    DataTable,
    TableError,
>)
    ensures
        missing_outcome(table@, columns.deep_view(), false, r),
{
    filter_rows_by_missing(table, columns, false)
}

} // verus!
