//! Operations that rewrite the cells of one named column.

use vstd::prelude::*;
use crate::cells::{apply_edit, edit_ok, edit_spec, CellEdit, EditView};
use crate::error::TableError;
use crate::model::{
    column_position, copy_cell, copy_columns, find_column, lemma_column_position, ColumnView,
    DataTable, LogicalType, TableColumn,
};
use crate::options::TextCaseMode;
use crate::rows::{cell_blank, cell_blank_exec};
use crate::text::{is_blank, trim, trim_spec};

verus! {

/// The table with column `pos` replaced.
pub fn replace_column(table: &DataTable, pos: usize, column: TableColumn) -> (r: DataTable)
    requires
        pos < table@.len(),
    ensures
        r@ == table@.update(pos as int, column@),
{
    let mut columns: Vec<TableColumn> = Vec::new();
    let mut c: usize = 0;
    let mut slot: Option<TableColumn> = Some(column);
    while c < table.columns.len()
        invariant
            pos < table@.len(),
            0 <= c <= table.columns@.len(),
            columns@.len() == c,
            c <= pos ==> slot == Some(column),
            forall|k: int|
                0 <= k < c ==> #[trigger] columns@[k]@ == table@.update(pos as int, column@)[k],
        decreases table.columns.len() - c,
    {
        if c == pos {
            let taken = slot.take();
            match taken {
                Some(col) => columns.push(col),
                None => columns.push(table.columns[c].duplicate()),
            }
        } else {
            columns.push(table.columns[c].duplicate());
        }
        c += 1;
    }
    let r = DataTable { columns };
    assert(r@ =~= table@.update(pos as int, column@));
    r
}

/// The table with one more column at the end.
pub fn append_column(table: &DataTable, column: TableColumn) -> (r: DataTable)
    ensures
        r@ == table@.push(column@),
{
    let mut columns = copy_columns(&table.columns);
    columns.push(column);
    let r = DataTable { columns };
    assert(r@ =~= table@.push(column@));
    r
}

/// Type of a column after an edit: conversions fix it, other edits keep it.
pub open spec fn edit_type(e: EditView, old: LogicalType) -> LogicalType {
    match e {
        EditView::IntegerToFloat => LogicalType::Float,
        EditView::ToBoolean => LogicalType::Boolean,
        EditView::NormalizeDateTime => LogicalType::DateTime,
        EditView::TimestampToDateTime => LogicalType::DateTime,
        _ => old,
    }
}

/// Column `pos` with every cell edited and its type updated.
pub open spec fn edited(t: Seq<ColumnView>, pos: int, e: EditView) -> Seq<ColumnView> {
    t.update(
        pos,
        (ColumnView {
            name: t[pos].name,
            logical_type: edit_type(e, t[pos].logical_type),
            values: t[pos].values.map_values(|v: Option<Seq<char>>| edit_spec(e, v)),
        }),
    )
}

/// The outcome of editing the first column named `column`: refused when no
/// column has that name.
pub open spec fn edit_outcome(
    t: Seq<ColumnView>,
    column: Seq<char>,
    e: EditView,
    r: Result<DataTable, TableError>,
) -> bool {
    match column_position(t, column) {
        Some(p) => r matches Ok(out) && out@ == edited(t, p, e),
        None => r matches Err(TableError::ColumnNotFound(n)) && n@ == column,
    }
}

/// Rewrites every cell of the first column named `column`.
pub fn edit_column(table: &DataTable, column: &str, e: &CellEdit) -> (r: Result<
    DataTable,
    TableError,
>)
    requires
        edit_ok(e@),
    ensures
        edit_outcome(table@, column@, e@, r),
{
    let pos = match find_column(table, column) {
        Some(p) => p,
        None => return Err(TableError::ColumnNotFound(column.to_owned())),
    };
    proof {
        lemma_column_position(table@, column@);
    }
    let source = &table.columns[pos];
    let mut values: Vec<Option<String>> = Vec::new();
    let mut i: usize = 0;
    while i < source.values.len()
        invariant
            edit_ok(e@),
            0 <= i <= source.values@.len(),
            values@.len() == i,
            forall|k: int|
                0 <= k < i ==> #[trigger] values@[k].deep_view() == edit_spec(
                    e@,
                    source.values@[k].deep_view(),
                ),
        decreases source.values.len() - i,
    {
        values.push(apply_edit(e, &source.values[i]));
        i += 1;
    }
    let logical_type = match e {
        CellEdit::IntegerToFloat => LogicalType::Float,
        CellEdit::ToBoolean => LogicalType::Boolean,
        CellEdit::NormalizeDateTime => LogicalType::DateTime,
        CellEdit::TimestampToDateTime => LogicalType::DateTime,
        _ => source.logical_type,
    };
    let col = TableColumn { name: source.name.clone(), logical_type, values };
    assert(col@.values =~= source@.values.map_values(
        |v: Option<Seq<char>>| edit_spec(e@, v),
    ));
    let r = replace_column(table, pos, col);
    assert(r@ =~= edited(table@, pos as int, e@));
    Ok(r)
}

/// Fills blank cells (missing or whitespace only) with `value`.
pub fn fill_null_text(table: &DataTable, column: &str, value: &str) -> (r: Result<
    DataTable,
    TableError,
>)
    ensures
        edit_outcome(table@, column@, EditView::FillBlank(value@), r),
{
    let e = CellEdit::FillBlank(value.to_owned());
    edit_column(table, column, &e)
}

/// Turns cells that trim to nothing into missing cells.
pub fn empty_string_to_null(table: &DataTable, column: &str) -> (r: Result<
    DataTable,
    TableError,
>)
    ensures
        edit_outcome(table@, column@, EditView::BlankToMissing, r),
{
    edit_column(table, column, &CellEdit::BlankToMissing)
}

/// The outcome of replacing exact values: a blank `from` is refused.
pub open spec fn replace_exact_outcome(
    t: Seq<ColumnView>,
    column: Seq<char>,
    from: Seq<char>,
    to: Seq<char>,
    r: Result<DataTable, TableError>,
) -> bool {
    if trim_spec(from).len() == 0 {
        r == Err::<DataTable, TableError>(TableError::EmptyPattern)
    } else {
        edit_outcome(t, column, EditView::ReplaceExact(from, to), r)
    }
}

/// The outcome of an edit that needs a non-empty search text `pattern`.
pub open spec fn pattern_outcome(
    t: Seq<ColumnView>,
    column: Seq<char>,
    pattern: Seq<char>,
    e: EditView,
    r: Result<DataTable, TableError>,
) -> bool {
    if pattern.len() == 0 {
        r == Err::<DataTable, TableError>(TableError::EmptyPattern)
    } else {
        edit_outcome(t, column, e, r)
    }
}

/// Replaces cells whose trimmed text equals the trimmed `from` by `to` (or by a
/// missing cell when `to` is blank); a blank `from` is refused.
pub fn replace_exact_value(table: &DataTable, column: &str, from: &str, to: &str) -> (r: Result<
    DataTable,
    TableError,
>)
    ensures
        replace_exact_outcome(table@, column@, from@, to@, r),
{
    if is_blank(from) {
        return Err(TableError::EmptyPattern);
    }
    let e = CellEdit::ReplaceExact(from.to_owned(), to.to_owned());
    edit_column(table, column, &e)
}

/// Writes integer cells with a `.0` fraction and types the column as float.
pub fn convert_integer_to_float(table: &DataTable, column: &str) -> (r: Result<
    DataTable,
    TableError,
>)
    ensures
        edit_outcome(table@, column@, EditView::IntegerToFloat, r),
{
    edit_column(table, column, &CellEdit::IntegerToFloat)
}

/// Writes boolean words as `true`/`false` and types the column as boolean.
pub fn convert_to_boolean(table: &DataTable, column: &str) -> (r: Result<DataTable, TableError>)
    ensures
        edit_outcome(table@, column@, EditView::ToBoolean, r),
{
    edit_column(table, column, &CellEdit::ToBoolean)
}

/// The edit a case mode makes.
pub open spec fn case_edit(mode: TextCaseMode) -> EditView {
    match mode {
        TextCaseMode::Upper => EditView::Upper,
        TextCaseMode::Lower => EditView::Lower,
    }
}

/// Upper- or lower-cases every present cell.
pub fn transform_text_case(table: &DataTable, column: &str, mode: &TextCaseMode) -> (r: Result<
    DataTable,
    TableError,
>)
    ensures
        edit_outcome(table@, column@, case_edit(*mode), r),
{
    match mode {
        TextCaseMode::Upper => edit_column(table, column, &CellEdit::Upper),
        TextCaseMode::Lower => edit_column(table, column, &CellEdit::Lower),
    }
}

/// Replaces every occurrence of `from` by `to`; an empty `from` is refused.
pub fn replace_text(table: &DataTable, column: &str, from: &str, to: &str) -> (r: Result<
    DataTable,
    TableError,
>)
    ensures
        pattern_outcome(table@, column@, from@, EditView::ReplaceText(from@, to@), r),
{
    if from.is_empty() {
        return Err(TableError::EmptyPattern);
    }
    let e = CellEdit::ReplaceText(from.to_owned(), to.to_owned());
    edit_column(table, column, &e)
}

/// Collapses whitespace runs to one space; a cell left empty becomes missing.
pub fn squeeze_text_whitespace(table: &DataTable, column: &str) -> (r: Result<
    DataTable,
    TableError,
>)
    ensures
        edit_outcome(table@, column@, EditView::SqueezeWhitespace, r),
{
    edit_column(table, column, &CellEdit::SqueezeWhitespace)
}

/// Deletes every occurrence of `pattern`; an empty pattern is refused.
pub fn remove_text_pattern(table: &DataTable, column: &str, pattern: &str) -> (r: Result<
    DataTable,
    TableError,
>)
    ensures
        pattern_outcome(table@, column@, pattern@, EditView::ReplaceText(pattern@, Seq::empty()), r),
{
    if pattern.is_empty() {
        return Err(TableError::EmptyPattern);
    }
    let e = CellEdit::ReplaceText(pattern.to_owned(), String::new());
    edit_column(table, column, &e)
}

/// Keeps the text before (or after) the first `delimiter`, trimmed; an empty
/// delimiter is refused.
pub fn extract_text_by_delimiter(
    table: &DataTable,
    column: &str,
    delimiter: &str,
    take_before: bool,
) -> (r: Result<DataTable, TableError>)
    ensures
        pattern_outcome(
            table@,
            column@,
            delimiter@,
            if take_before {
                EditView::TextBefore(delimiter@)
            } else {
                EditView::TextAfter(delimiter@)
            },
            r,
        ),
{
    if delimiter.is_empty() {
        return Err(TableError::EmptyPattern);
    }
    let e = if take_before {
        CellEdit::TextBefore(delimiter.to_owned())
    } else {
        CellEdit::TextAfter(delimiter.to_owned())
    };
    edit_column(table, column, &e)
}

/// Keeps the trimmed text before the first `delimiter`.
pub fn extract_text_before(table: &DataTable, column: &str, delimiter: &str) -> (r: Result<
    DataTable,
    TableError,
>)
    ensures
        pattern_outcome(table@, column@, delimiter@, EditView::TextBefore(delimiter@), r),
{
    extract_text_by_delimiter(table, column, delimiter, true)
}

/// Keeps the trimmed text after the first `delimiter`.
pub fn extract_text_after(table: &DataTable, column: &str, delimiter: &str) -> (r: Result<
    DataTable,
    TableError,
>)
    ensures
        pattern_outcome(table@, column@, delimiter@, EditView::TextAfter(delimiter@), r),
{
    extract_text_by_delimiter(table, column, delimiter, false)
}

/// Keeps only ASCII digits; a cell without digits becomes missing.
pub fn keep_digits_only(table: &DataTable, column: &str) -> (r: Result<DataTable, TableError>)
    ensures
        edit_outcome(table@, column@, EditView::DigitsOnly, r),
{
    edit_column(table, column, &CellEdit::DigitsOnly)
}

/// Wraps every present cell in `prefix` and `suffix`.
pub fn add_text_affix(table: &DataTable, column: &str, prefix: &str, suffix: &str) -> (r: Result<
    DataTable,
    TableError,
>)
    ensures
        edit_outcome(table@, column@, EditView::Affix(prefix@, suffix@), r),
{
    let e = CellEdit::Affix(prefix.to_owned(), suffix.to_owned());
    edit_column(table, column, &e)
}

/// The outcome of truncating cells: a zero length is refused.
pub open spec fn truncate_outcome(
    t: Seq<ColumnView>,
    column: Seq<char>,
    max_chars: nat,
    r: Result<DataTable, TableError>,
) -> bool {
    if max_chars == 0 {
        r == Err::<DataTable, TableError>(TableError::ZeroLength)
    } else {
        edit_outcome(t, column, EditView::Truncate(max_chars), r)
    }
}

/// Keeps the first `max_chars` characters of every present cell; zero is refused.
pub fn truncate_text(table: &DataTable, column: &str, max_chars: usize) -> (r: Result<
    DataTable,
    TableError,
>)
    ensures
        truncate_outcome(table@, column@, max_chars as nat, r),
{
    if max_chars == 0 {
        return Err(TableError::ZeroLength);
    }
    edit_column(table, column, &CellEdit::Truncate(max_chars))
}

/// Rewrites cells read as date-times (by pattern or timestamp) as
/// `%Y-%m-%d %H:%M:%S` and types the column as date-time.
pub fn normalize_datetime_format(table: &DataTable, column: &str) -> (r: Result<
    DataTable,
    TableError,
>)
    ensures
        edit_outcome(table@, column@, EditView::NormalizeDateTime, r),
{
    edit_column(table, column, &CellEdit::NormalizeDateTime)
}

/// Same as `normalize_datetime_format`.
pub fn convert_string_to_datetime(table: &DataTable, column: &str) -> (r: Result<
    DataTable,
    TableError,
>)
    ensures
        edit_outcome(table@, column@, EditView::NormalizeDateTime, r),
{
    normalize_datetime_format(table, column)
}

/// Rewrites cells read as timestamps as `%Y-%m-%d %H:%M:%S` and types the
/// column as date-time.
pub fn convert_timestamp_to_datetime(table: &DataTable, column: &str) -> (r: Result<
    DataTable,
    TableError,
>)
    ensures
        edit_outcome(table@, column@, EditView::TimestampToDateTime, r),
{
    edit_column(table, column, &CellEdit::TimestampToDateTime)
}

/// The outcome of retyping a column.
pub open spec fn cast_outcome(
    t: Seq<ColumnView>,
    column: Seq<char>,
    target: LogicalType,
    r: Result<DataTable, TableError>,
) -> bool {
    match column_position(t, column) {
        Some(p) => r matches Ok(out) && out@ == t.update(p, (ColumnView { logical_type: target, ..t[p] })),
        None => r matches Err(TableError::ColumnNotFound(n)) && n@ == column,
    }
}

/// Gives the first column named `column` a new type; its cells stay as they are.
pub fn cast_column(table: &DataTable, column: &str, target: LogicalType) -> (r: Result<
    DataTable,
    TableError,
>)
    ensures
        cast_outcome(table@, column@, target, r),
{
    let pos = match find_column(table, column) {
        Some(p) => p,
        None => return Err(TableError::ColumnNotFound(column.to_owned())),
    };
    proof {
        lemma_column_position(table@, column@);
    }
    let mut col = table.columns[pos].duplicate();
    col.logical_type = target;
    let r = replace_column(table, pos, col);
    assert(r@ =~= table@.update(pos as int, (ColumnView { logical_type: target, ..table@[pos as int] })));
    Ok(r)
}

/// The last cell among `s` that is not blank.
pub open spec fn last_non_blank(s: Seq<Option<Seq<char>>>) -> Option<Seq<char>>
    decreases s.len(),
{
    if s.len() == 0 {
        None
    } else if !cell_blank(s.last()) {
        s.last()
    } else {
        last_non_blank(s.drop_last())
    }
}

/// The first cell among `s` that is not blank.
pub open spec fn first_non_blank(s: Seq<Option<Seq<char>>>) -> Option<Seq<char>>
    decreases s.len(),
{
    if s.len() == 0 {
        None
    } else if !cell_blank(s[0]) {
        s[0]
    } else {
        first_non_blank(s.drop_first())
    }
}

/// A blank cell takes the nearest non-blank cell above it, if there is one.
pub open spec fn forward_filled(v: Seq<Option<Seq<char>>>) -> Seq<Option<Seq<char>>> {
    Seq::new(
        v.len(),
        |i: int|
            if cell_blank(v[i]) && last_non_blank(v.take(i)) is Some {
                last_non_blank(v.take(i))
            } else {
                v[i]
            },
    )
}

/// A blank cell takes the nearest non-blank cell below it, if there is one.
pub open spec fn backward_filled(v: Seq<Option<Seq<char>>>) -> Seq<Option<Seq<char>>> {
    Seq::new(
        v.len(),
        |i: int|
            if cell_blank(v[i]) && first_non_blank(v.skip(i + 1)) is Some {
                first_non_blank(v.skip(i + 1))
            } else {
                v[i]
            },
    )
}

/// The outcome of replacing the cells of the first column named `column` by
/// `fill` of its cells.
pub open spec fn fill_outcome(
    t: Seq<ColumnView>,
    column: Seq<char>,
    filled: Option<Seq<Option<Seq<char>>>>,
    r: Result<DataTable, TableError>,
) -> bool {
    match column_position(t, column) {
        Some(p) => r matches Ok(out) && filled matches Some(f) && out@ == t.update(
            p,
            (ColumnView { values: f, ..t[p] }),
        ),
        None => r matches Err(TableError::ColumnNotFound(n)) && n@ == column,
    }
}

/// The outcome of filling blank cells from above.
pub open spec fn forward_fill_outcome(t: Seq<ColumnView>, column: Seq<char>, r: Result<DataTable, TableError>) -> bool {
    fill_outcome(
        t,
        column,
        match column_position(t, column) {
            Some(p) => Some(forward_filled(t[p].values)),
            None => None,
        },
        r,
    )
}

/// The outcome of filling blank cells from below.
pub open spec fn backward_fill_outcome(t: Seq<ColumnView>, column: Seq<char>, r: Result<DataTable, TableError>) -> bool {
    fill_outcome(
        t,
        column,
        match column_position(t, column) {
            Some(p) => Some(backward_filled(t[p].values)),
            None => None,
        },
        r,
    )
}

/// Each blank cell takes the nearest non-blank cell before it, if any.
pub fn forward_fill_cells(cells: &Vec<Option<String>>) -> (r: Vec<Option<String>>)
    ensures
        r.deep_view() == forward_filled(cells.deep_view()),
{
    let ghost v = cells.deep_view();
    let mut values: Vec<Option<String>> = Vec::new();
    let mut last: Option<String> = None;
    let mut i: usize = 0;
    while i < cells.len()
        invariant
            v == cells.deep_view(),
            0 <= i <= v.len(),
            values@.len() == i,
            last.deep_view() == last_non_blank(v.take(i as int)),
            forall|k: int| 0 <= k < i ==> #[trigger] values@[k].deep_view() == forward_filled(v)[k],
        decreases cells.len() - i,
    {
        assert(v.take(i + 1).drop_last() =~= v.take(i as int));
        let cell = &cells[i];
        if cell_blank_exec(cell) {
            values.push(
                match &last {
                    Some(x) => Some(x.clone()),
                    None => copy_cell(cell),
                },
            );
        } else {
            values.push(copy_cell(cell));
            last = copy_cell(cell);
        }
        i += 1;
    }
    assert(values.deep_view() =~= forward_filled(v));
    values
}

/// Each blank cell takes the nearest non-blank cell after it, if any.
pub fn backward_fill_cells(cells: &Vec<Option<String>>) -> (r: Vec<Option<String>>)
    ensures
        r.deep_view() == backward_filled(cells.deep_view()),
{
    let ghost v = cells.deep_view();
    let mut values = crate::model::copy_cells(cells);
    let mut next: Option<String> = None;
    let mut i: usize = cells.len();
    while i > 0
        invariant
            v == cells.deep_view(),
            0 <= i <= v.len(),
            values@.len() == v.len(),
            next.deep_view() == first_non_blank(v.skip(i as int)),
            forall|k: int| 0 <= k < i ==> #[trigger] values@[k].deep_view() == v[k],
            forall|k: int|
                i <= k < v.len() ==> #[trigger] values@[k].deep_view() == backward_filled(v)[k],
        decreases i,
    {
        i -= 1;
        assert(v.skip(i as int).drop_first() =~= v.skip(i + 1));
        let cell = &cells[i];
        if cell_blank_exec(cell) {
            match &next {
                Some(x) => values.set(i, Some(x.clone())),
                None => {},
            }
        } else {
            next = copy_cell(cell);
        }
    }
    assert(values.deep_view() =~= backward_filled(v));
    values
}

/// Fills each blank cell with the nearest non-blank cell above it.
pub fn fill_null_forward(table: &DataTable, column: &str) -> (r: Result<DataTable, TableError>)
    ensures
        forward_fill_outcome(table@, column@, r),
{
    let pos = match find_column(table, column) {
        Some(p) => p,
        None => return Err(TableError::ColumnNotFound(column.to_owned())),
    };
    proof {
        lemma_column_position(table@, column@);
    }
    let source = &table.columns[pos];
    let ghost v = source@.values;
    let values = forward_fill_cells(&source.values);
    let col = TableColumn { name: source.name.clone(), logical_type: source.logical_type, values };
    assert(col@.values =~= forward_filled(v));
    let r = replace_column(table, pos, col);
    assert(r@ =~= table@.update(pos as int, (ColumnView { values: forward_filled(v), ..table@[pos as int] })));
    Ok(r)
}

/// Fills each blank cell with the nearest non-blank cell below it.
pub fn fill_null_backward(table: &DataTable, column: &str) -> (r: Result<DataTable, TableError>)
    ensures
        backward_fill_outcome(table@, column@, r),
{
    let pos = match find_column(table, column) {
        Some(p) => p,
        None => return Err(TableError::ColumnNotFound(column.to_owned())),
    };
    proof {
        lemma_column_position(table@, column@);
    }
    let source = &table.columns[pos];
    let ghost v = source@.values;
    let values = backward_fill_cells(&source.values);
    let col = TableColumn { name: source.name.clone(), logical_type: source.logical_type, values };
    assert(col@.values =~= backward_filled(v));
    let r = replace_column(table, pos, col);
    assert(r@ =~= table@.update(pos as int, (ColumnView { values: backward_filled(v), ..table@[pos as int] })));
    Ok(r)
}

/// A present cell trimmed; a cell left empty becomes missing.
pub open spec fn trimmed_cell(v: Option<Seq<char>>) -> Option<Seq<char>> {
    match v {
        Some(s) => crate::cells::non_empty_cell(trim_spec(s)),
        None => None,
    }
}

/// Text and date-time columns get their cells trimmed; others stay as they are.
pub open spec fn trim_column(c: ColumnView) -> ColumnView {
    if c.logical_type == LogicalType::Text || c.logical_type == LogicalType::DateTime {
        (ColumnView { values: c.values.map_values(|v: Option<Seq<char>>| trimmed_cell(v)), ..c })
    } else {
        c
    }
}

/// Every column after trimming.
pub open spec fn trimmed_table(t: Seq<ColumnView>) -> Seq<ColumnView> {
    t.map_values(|c: ColumnView| trim_column(c))
}

/// Trimming the text values of a table a second time changes nothing.
pub proof fn lemma_trim_text_values_idempotent(t: Seq<ColumnView>)
    ensures
        trimmed_table(trimmed_table(t)) == trimmed_table(t),
{
    assert forall|c: ColumnView| #[trigger] trim_column(trim_column(c)) == trim_column(c) by {
        if c.logical_type == LogicalType::Text || c.logical_type == LogicalType::DateTime {
            let once = trim_column(c);
            assert forall|i: int| 0 <= i < c.values.len() implies #[trigger] trimmed_cell(once.values[i])
                == once.values[i] by {
                match c.values[i] {
                    Some(s) => crate::text::lemma_trim_idempotent(s),
                    None => {},
                }
            }
            assert(trim_column(once).values =~= once.values);
        }
    }
    assert(trimmed_table(trimmed_table(t)) =~= trimmed_table(t));
}

/// Trims the cells of every text and date-time column.
pub fn trim_text_values(table: &DataTable) -> (r: DataTable)
    ensures
        r@ == trimmed_table(table@),
{
    let mut columns: Vec<TableColumn> = Vec::new();
    let mut c: usize = 0;
    while c < table.columns.len()
        invariant
            0 <= c <= table.columns@.len(),
            columns@.len() == c,
            forall|k: int| 0 <= k < c ==> #[trigger] columns@[k]@ == trim_column(table@[k]),
        decreases table.columns.len() - c,
    {
        let source = &table.columns[c];
        if source.logical_type == LogicalType::Text || source.logical_type == LogicalType::DateTime {
            let mut values: Vec<Option<String>> = Vec::new();
            let mut i: usize = 0;
            while i < source.values.len()
                invariant
                    0 <= i <= source.values@.len(),
                    values@.len() == i,
                    forall|k: int|
                        0 <= k < i ==> #[trigger] values@[k].deep_view() == trimmed_cell(
                            source.values@[k].deep_view(),
                        ),
                decreases source.values.len() - i,
            {
                match &source.values[i] {
                    Some(s) => values.push(crate::cells::non_empty(trim(s.as_str()))),
                    None => values.push(None),
                }
                i += 1;
            }
            let col = TableColumn { name: source.name.clone(), logical_type: source.logical_type, values };
            assert(col@ =~= trim_column(source@));
            columns.push(col);
        } else {
            columns.push(source.duplicate());
        }
        c += 1;
    }
    let r = DataTable { columns };
    assert(r@ =~= trimmed_table(table@));
    r
}

} // verus!
