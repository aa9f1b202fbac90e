//! Sorting rows, and the operations that read a column as date-times.

use vstd::prelude::*;
use crate::columns::{append_column, replace_column};
use crate::datetime::{
    date_text, date_to_text, datetime_text, datetime_to_text, moment_order, parse_datetime_or_timestamp,
    parsed_moment, shift_minutes, shifted_moment, compare_moments, DateTimeParts,
};
use crate::error::TableError;
use crate::model::{
    cell_at, column_position, contains_column, find_column, has_name, height_of,
    lemma_column_position, ColumnView, DataTable, LogicalType, TableColumn,
};
use crate::number::{i64_to_text, int_text_spec, parse_i64, parse_int_spec};
use crate::rows::{positions_where, select_rows, select_spec};
use crate::mergesort::stable_sort_positions;
use crate::sorting::{sorted_stably, KeyView, SortKey};
use crate::text::{concat, is_blank, trim, trim_spec};

verus! {

/// What a cell of a column of type `ty` is sorted by: integers by value (an
/// unreadable one first), other types as text, a missing cell last.
pub open spec fn value_key(v: Option<Seq<char>>, ty: LogicalType) -> KeyView {
    match v {
        None => KeyView::Missing,
        Some(s) => if ty == LogicalType::Integer {
            KeyView::Number(parse_int_spec(s))
        } else {
            KeyView::Text(s)
        },
    }
}

/// The sort key of a cell (see `value_key`).
pub fn value_key_of(v: &Option<String>, ty: LogicalType) -> (r: SortKey)
    ensures
        r@ == value_key(v.deep_view(), ty),
{
    match v {
        None => SortKey::Missing,
        Some(s) => if ty == LogicalType::Integer {
            SortKey::Number(parse_i64(s.as_str()))
        } else {
            SortKey::Text(s.clone())
        },
    }
}

/// Order of two cells of a column of type `ty` (not float): -1, 0 or 1.
pub fn compare_values(left: &Option<String>, right: &Option<String>, ty: LogicalType) -> (r: i8)
    requires
        ty != LogicalType::Float,
    ensures
        r as int == crate::sorting::key_order(value_key(left.deep_view(), ty), value_key(right.deep_view(), ty)),
{
    let a = value_key_of(left, ty);
    let b = value_key_of(right, ty);
    crate::sorting::compare_keys(&a, &b)
}

/// Sort keys of the first `n` cells of a column.
pub open spec fn column_keys(c: ColumnView, n: nat) -> Seq<KeyView> {
    Seq::new(n, |i: int| value_key(cell_at(c, i), c.logical_type))
}

/// The outcome of sorting by a column (the order is unique, see
/// `lemma_sorted_stably_unique`).
pub open spec fn sort_outcome(
    t: Seq<ColumnView>,
    column: Seq<char>,
    ascending: bool,
    r: Result<DataTable, TableError>,
) -> bool {
    match column_position(t, column) {
        Some(p) => if t[p].logical_type == LogicalType::Float {
            r == Err::<DataTable, TableError>(TableError::FloatArithmetic)
        } else {
            r matches Ok(out) && exists|perm: Seq<usize>|
                sorted_stably(perm, column_keys(t[p], height_of(t)), ascending) && out@
                    == select_spec(t, perm)
        },
        None => r matches Err(TableError::ColumnNotFound(n)) && n@ == column,
    }
}

/// Whether the sort column reaches the table's height (a shorter one cannot be
/// sorted by).
pub open spec fn sort_column_ok(t: Seq<ColumnView>, column: Seq<char>) -> bool {
    column_position(t, column) matches Some(p) ==> t[p].values.len() >= height_of(t)
}

/// The rows in a stable order of one column's cells; float columns are left to
/// floating-point code.
pub fn sort_by_column(table: &DataTable, column: &str, ascending: bool) -> (r: Result<
    DataTable,
    TableError,
>)
    requires
        sort_column_ok(table@, column@),
    ensures
        sort_outcome(table@, column@, ascending, r),
{
    let pos = match find_column(table, column) {
        Some(p) => p,
        None => return Err(TableError::ColumnNotFound(column.to_owned())),
    };
    proof {
        lemma_column_position(table@, column@);
    }
    let source = &table.columns[pos];
    let ty = source.logical_type;
    if ty == LogicalType::Float {
        return Err(TableError::FloatArithmetic);
    }
    let h = table.height();
    let mut keys: Vec<SortKey> = Vec::new();
    let mut i: usize = 0;
    while i < h
        invariant
            h == height_of(table@),
            source@ == table@[pos as int],
            source@.values.len() >= h,
            ty == source@.logical_type,
            0 <= i <= h,
            keys@.len() == i,
            forall|k: int| 0 <= k < i ==> #[trigger] keys@[k]@ == value_key(cell_at(source@, k), ty),
        decreases h - i,
    {
        keys.push(value_key_of(&source.values[i], ty));
        i += 1;
    }
    let perm = stable_sort_positions(&keys, ascending);
    assert(keys@.map_values(|k: SortKey| k@) =~= column_keys(source@, h as nat));
    Ok(select_rows(table, &perm))
}

/// Sort key of a cell read as a date-time.
pub open spec fn moment_key(v: Option<Seq<char>>) -> KeyView {
    KeyView::Moment(
        match v {
            Some(s) => parsed_moment(trim_spec(s)),
            None => None,
        },
    )
}

/// Sort keys of the first `n` cells of a column read as date-times.
pub open spec fn moment_keys(c: ColumnView, n: nat) -> Seq<KeyView> {
    Seq::new(n, |i: int| moment_key(cell_at(c, i)))
}

/// The outcome of sorting by a column read as date-times.
pub open spec fn datetime_sort_outcome(
    t: Seq<ColumnView>,
    column: Seq<char>,
    ascending: bool,
    r: Result<DataTable, TableError>,
) -> bool {
    match column_position(t, column) {
        Some(p) => r matches Ok(out) && exists|perm: Seq<usize>|
            sorted_stably(perm, moment_keys(t[p], height_of(t)), ascending) && out@ == select_spec(
                t,
                perm,
            ),
        None => r matches Err(TableError::ColumnNotFound(n)) && n@ == column,
    }
}

/// The rows in a stable order of one column read as date-times (an unreadable
/// or missing cell first).
pub fn sort_by_datetime(table: &DataTable, column: &str, ascending: bool) -> (r: Result<
    DataTable,
    TableError,
>)
    ensures
        datetime_sort_outcome(table@, column@, ascending, r),
{
    let pos = match find_column(table, column) {
        Some(p) => p,
        None => return Err(TableError::ColumnNotFound(column.to_owned())),
    };
    proof {
        lemma_column_position(table@, column@);
    }
    let source = &table.columns[pos];
    let h = table.height();
    let mut keys: Vec<SortKey> = Vec::new();
    let mut i: usize = 0;
    while i < h
        invariant
            h == height_of(table@),
            source@ == table@[pos as int],
            0 <= i <= h,
            keys@.len() == i,
            forall|k: int| 0 <= k < i ==> #[trigger] keys@[k]@ == moment_key(cell_at(source@, k)),
        decreases h - i,
    {
        let key = if i < source.values.len() {
            match &source.values[i] {
                Some(s) => {
                    let t = trim(s.as_str());
                    SortKey::Moment(parse_datetime_or_timestamp(t.as_str()))
                },
                None => SortKey::Moment(None),
            }
        } else {
            SortKey::Moment(None)
        };
        keys.push(key);
        i += 1;
    }
    let perm = stable_sort_positions(&keys, ascending);
    assert(keys@.map_values(|k: SortKey| k@) =~= moment_keys(table@[pos as int], h as nat));
    Ok(select_rows(table, &perm))
}

/// A cell moved by `minutes`: none when a readable moment cannot be moved
/// (chrono rejects it or leaves its range).
pub open spec fn shifted_cell(v: Option<Seq<char>>, minutes: i64) -> Option<Option<Seq<char>>> {
    match v {
        Some(s) => match parsed_moment(trim_spec(s)) {
            Some(p) => match shifted_moment(p, minutes) {
                Some(q) => match datetime_text(q) {
                    Some(t) => Some(Some(t)),
                    None => Some(v),
                },
                None => None,
            },
            None => Some(v),
        },
        None => Some(None),
    }
}

/// Whether every readable cell can be moved.
pub open spec fn all_shiftable(values: Seq<Option<Seq<char>>>, minutes: i64) -> bool {
    forall|i: int| 0 <= i < values.len() ==> (#[trigger] shifted_cell(values[i], minutes)) is Some
}

/// The column after moving its moments.
pub open spec fn shifted_column(c: ColumnView, minutes: i64) -> ColumnView {
    ColumnView {
        name: c.name,
        logical_type: LogicalType::DateTime,
        values: c.values.map_values(|v: Option<Seq<char>>| shifted_cell(v, minutes).unwrap()),
    }
}

/// The outcome of moving a column's moments.
pub open spec fn shift_outcome(
    t: Seq<ColumnView>,
    column: Seq<char>,
    minutes: i64,
    r: Result<DataTable, TableError>,
) -> bool {
    match column_position(t, column) {
        Some(p) => if all_shiftable(t[p].values, minutes) {
            r matches Ok(out) && out@ == t.update(p, shifted_column(t[p], minutes))
        } else {
            r == Err::<DataTable, TableError>(TableError::TimeOutOfRange)
        },
        None => r matches Err(TableError::ColumnNotFound(n)) && n@ == column,
    }
}

/// Moves every readable date-time of a column by `minutes`, writes it as
/// `%Y-%m-%d %H:%M:%S` and types the column as date-time. A moment that would
/// leave chrono's range is refused.
pub fn shift_datetime_by_minutes(table: &DataTable, column: &str, minutes: i64) -> (r: Result<
    DataTable,
    TableError,
>)
    ensures
        shift_outcome(table@, column@, minutes, r),
{
    let pos = match find_column(table, column) {
        Some(p) => p,
        None => return Err(TableError::ColumnNotFound(column.to_owned())),
    };
    proof {
        lemma_column_position(table@, column@);
    }
    let source = &table.columns[pos];
    let ghost v = source@.values;
    let mut values: Vec<Option<String>> = Vec::new();
    let mut i: usize = 0;
    while i < source.values.len()
        invariant
            v == source@.values,
            v == table@[pos as int].values,
            column_position(table@, column@) == Some(pos as int),
            0 <= i <= v.len(),
            values@.len() == i,
            forall|k: int| 0 <= k < i ==> (#[trigger] shifted_cell(v[k], minutes)) is Some,
            forall|k: int|
                0 <= k < i ==> #[trigger] values@[k].deep_view() == shifted_cell(v[k], minutes).unwrap(),
        decreases source.values.len() - i,
    {
        match &source.values[i] {
            Some(s) => {
                let t = trim(s.as_str());
                match parse_datetime_or_timestamp(t.as_str()) {
                    Some(p) => match shift_minutes(p, minutes) {
                        Some(q) => match datetime_to_text(q) {
                            Some(text) => values.push(Some(text)),
                            None => values.push(Some(s.clone())),
                        },
                        None => {
                            assert(shifted_cell(v[i as int], minutes) is None);
                            assert(!all_shiftable(table@[pos as int].values, minutes));
                            return Err(TableError::TimeOutOfRange);
                        },
                    },
                    None => values.push(Some(s.clone())),
                }
            },
            None => values.push(None),
        }
        i += 1;
    }
    let col = TableColumn {
        name: source.name.clone(),
        logical_type: LogicalType::DateTime,
        values,
    };
    assert(col@ =~= shifted_column(table@[pos as int], minutes));
    let r = replace_column(table, pos, col);
    Ok(r)
}

/// A field of a moment that can be pulled into its own column.
#[derive(Clone, Copy, Debug, PartialEq, Eq, Structural)]
pub enum DatePart {
    Year,
    Month,
    Day,
    Hour,
}

/// The value of a field of a moment.
pub open spec fn part_value(p: DateTimeParts, part: DatePart) -> int {
    match part {
        DatePart::Year => p.year as int,
        DatePart::Month => p.month as int,
        DatePart::Day => p.day as int,
        DatePart::Hour => p.hour as int,
    }
}

/// The cell holding a field of a cell's moment (missing when unreadable).
pub open spec fn part_cell(v: Option<Seq<char>>, part: DatePart) -> Option<Seq<char>> {
    match v {
        Some(s) => match parsed_moment(trim_spec(s)) {
            Some(p) => Some(int_text_spec(part_value(p, part))),
            None => None,
        },
        None => None,
    }
}

fn part_text(p: &DateTimeParts, part: DatePart) -> (r: String)
    ensures
        r@ == int_text_spec(part_value(*p, part)),
{
    match part {
        DatePart::Year => i64_to_text(p.year as i64),
        DatePart::Month => i64_to_text(p.month as i64),
        DatePart::Day => i64_to_text(p.day as i64),
        DatePart::Hour => i64_to_text(p.hour as i64),
    }
}

/// The field `part` of every cell of a column.
fn part_values(values: &Vec<Option<String>>, part: DatePart) -> (r: Vec<Option<String>>)
    ensures
        r.deep_view() == values.deep_view().map_values(|v: Option<Seq<char>>| part_cell(v, part)),
{
    let mut out: Vec<Option<String>> = Vec::new();
    let mut i: usize = 0;
    while i < values.len()
        invariant
            0 <= i <= values@.len(),
            out@.len() == i,
            forall|k: int|
                0 <= k < i ==> #[trigger] out@[k].deep_view() == part_cell(
                    values.deep_view()[k],
                    part,
                ),
        decreases values.len() - i,
    {
        match &values[i] {
            Some(s) => {
                let t = trim(s.as_str());
                match parse_datetime_or_timestamp(t.as_str()) {
                    Some(p) => out.push(Some(part_text(&p, part))),
                    None => out.push(None),
                }
            },
            None => out.push(None),
        }
        i += 1;
    }
    assert(out.deep_view() =~= values.deep_view().map_values(
        |v: Option<Seq<char>>| part_cell(v, part),
    ));
    out
}

/// The outcome of adding a column derived from an existing one: refused for a
/// blank target, an existing target, or an unknown source.
pub open spec fn derived_outcome(
    t: Seq<ColumnView>,
    column: Seq<char>,
    target: Seq<char>,
    made: spec_fn(ColumnView) -> ColumnView,
    r: Result<DataTable, TableError>,
) -> bool {
    if trim_spec(target).len() == 0 {
        r == Err::<DataTable, TableError>(TableError::EmptyColumnName)
    } else if has_name(t, trim_spec(target)) {
        r matches Err(TableError::ColumnExists(n)) && n@ == trim_spec(target)
    } else {
        match column_position(t, column) {
            Some(p) => r matches Ok(out) && out@ == t.push(made(t[p])),
            None => r matches Err(TableError::ColumnNotFound(n)) && n@ == column,
        }
    }
}

/// The column of one field of each moment, named `target` (trimmed).
pub open spec fn part_column(target: Seq<char>, part: DatePart) -> spec_fn(ColumnView) -> ColumnView {
    |c: ColumnView|
        (ColumnView {
            name: trim_spec(target),
            logical_type: LogicalType::Integer,
            values: c.values.map_values(|v: Option<Seq<char>>| part_cell(v, part)),
        })
}

/// The column of each moment's date, named `target` (trimmed).
pub open spec fn date_column(target: Seq<char>) -> spec_fn(ColumnView) -> ColumnView {
    |c: ColumnView|
        (ColumnView {
            name: trim_spec(target),
            logical_type: LogicalType::DateTime,
            values: c.values.map_values(|v: Option<Seq<char>>| date_cell(v)),
        })
}

/// Adds an integer column `target` holding one field of each cell's moment.
pub fn extract_datetime_part_to_column(
    table: &DataTable,
    column: &str,
    target: &str,
    part: DatePart,
) -> (r: Result<DataTable, TableError>)
    ensures
        derived_outcome(table@, column@, target@, part_column(target@, part), r),
{
    let name = trim(target);
    if name.as_str().is_empty() {
        return Err(TableError::EmptyColumnName);
    }
    if contains_column(table, name.as_str()) {
        return Err(TableError::ColumnExists(name));
    }
    let pos = match find_column(table, column) {
        Some(p) => p,
        None => return Err(TableError::ColumnNotFound(column.to_owned())),
    };
    proof {
        lemma_column_position(table@, column@);
    }
    let values = part_values(&table.columns[pos].values, part);
    let col = TableColumn { name, logical_type: LogicalType::Integer, values };
    assert(col@ == part_column(target@, part)(table@[pos as int]));
    Ok(append_column(table, col))
}

/// Adds a column with the year of each cell's moment.
pub fn extract_year_to_column(table: &DataTable, column: &str, target: &str) -> (r: Result<
    DataTable,
    TableError,
>)
    ensures
        derived_outcome(table@, column@, target@, part_column(target@, DatePart::Year), r),
{
    extract_datetime_part_to_column(table, column, target, DatePart::Year)
}

/// Adds a column with the month of each cell's moment.
pub fn extract_month_to_column(table: &DataTable, column: &str, target: &str) -> (r: Result<
    DataTable,
    TableError,
>)
    ensures
        derived_outcome(table@, column@, target@, part_column(target@, DatePart::Month), r),
{
    extract_datetime_part_to_column(table, column, target, DatePart::Month)
}

/// Adds a column with the day of each cell's moment.
pub fn extract_day_to_column(table: &DataTable, column: &str, target: &str) -> (r: Result<
    DataTable,
    TableError,
>)
    ensures
        derived_outcome(table@, column@, target@, part_column(target@, DatePart::Day), r),
{
    extract_datetime_part_to_column(table, column, target, DatePart::Day)
}

/// Adds a column with the hour of each cell's moment.
pub fn extract_hour_to_column(table: &DataTable, column: &str, target: &str) -> (r: Result<
    DataTable,
    TableError,
>)
    ensures
        derived_outcome(table@, column@, target@, part_column(target@, DatePart::Hour), r),
{
    extract_datetime_part_to_column(table, column, target, DatePart::Hour)
}

/// The date of a cell's moment as `%Y-%m-%d` (missing when unreadable).
pub open spec fn date_cell(v: Option<Seq<char>>) -> Option<Seq<char>> {
    match v {
        Some(s) => match parsed_moment(trim_spec(s)) {
            Some(p) => date_text(p.year, p.month, p.day),
            None => None,
        },
        None => None,
    }
}

/// Adds a date-time column `target` with the date of each cell's moment.
pub fn extract_date_to_column(table: &DataTable, column: &str, target: &str) -> (r: Result<
    DataTable,
    TableError,
>)
    ensures
        derived_outcome(table@, column@, target@, date_column(target@), r),
{
    let name = trim(target);
    if name.as_str().is_empty() {
        return Err(TableError::EmptyColumnName);
    }
    if contains_column(table, name.as_str()) {
        return Err(TableError::ColumnExists(name));
    }
    let pos = match find_column(table, column) {
        Some(p) => p,
        None => return Err(TableError::ColumnNotFound(column.to_owned())),
    };
    proof {
        lemma_column_position(table@, column@);
    }
    let source = &table.columns[pos];
    let mut values: Vec<Option<String>> = Vec::new();
    let mut i: usize = 0;
    while i < source.values.len()
        invariant
            0 <= i <= source.values@.len(),
            values@.len() == i,
            forall|k: int|
                0 <= k < i ==> #[trigger] values@[k].deep_view() == date_cell(
                    source.values.deep_view()[k],
                ),
        decreases source.values.len() - i,
    {
        match &source.values[i] {
            Some(s) => {
                let t = trim(s.as_str());
                match parse_datetime_or_timestamp(t.as_str()) {
                    Some(p) => values.push(date_to_text(p)),
                    None => values.push(None),
                }
            },
            None => values.push(None),
        }
        i += 1;
    }
    let col = TableColumn { name, logical_type: LogicalType::DateTime, values };
    assert(col@.values =~= source@.values.map_values(|v: Option<Seq<char>>| date_cell(v)));
    assert(col@ == date_column(target@)(table@[pos as int]));
    Ok(append_column(table, col))
}

/// The four names `split_datetime_parts` adds: `<prefix>_year`, `_month`,
/// `_day`, `_hour`.
pub open spec fn split_names(prefix: Seq<char>) -> Seq<Seq<char>> {
    seq![prefix + "_year"@, prefix + "_month"@, prefix + "_day"@, prefix + "_hour"@]
}

/// The first of `names` that a column already carries.
pub open spec fn first_taken(t: Seq<ColumnView>, names: Seq<Seq<char>>) -> Option<int>
    decreases names.len(),
{
    if names.len() == 0 {
        None
    } else {
        match first_taken(t, names.drop_last()) {
            Some(k) => Some(k),
            None => if has_name(t, names.last()) {
                Some(names.len() - 1)
            } else {
                None
            },
        }
    }
}

/// Refuses the first of `targets` that a column already carries.
pub fn ensure_time_targets_absent(table: &DataTable, targets: &Vec<String>) -> (r: Result<
    (),
    TableError,
>)
    ensures
        match first_taken(table@, targets.deep_view()) {
            Some(k) => r matches Err(TableError::ColumnExists(n)) && n@ == targets.deep_view()[k],
            None => r is Ok,
        },
{
    let ghost ns = targets.deep_view();
    let mut k: usize = 0;
    while k < targets.len()
        invariant
            ns == targets.deep_view(),
            0 <= k <= ns.len(),
            first_taken(table@, ns.take(k as int)) is None,
        decreases targets.len() - k,
    {
        assert(ns.take(k + 1).drop_last() =~= ns.take(k as int));
        if contains_column(table, targets[k].as_str()) {
            proof {
                lemma_first_taken_prefix(table@, ns, k + 1);
            }
            return Err(TableError::ColumnExists(targets[k].clone()));
        }
        k += 1;
    }
    assert(ns.take(ns.len() as int) =~= ns);
    Ok(())
}

proof fn lemma_first_taken_prefix(t: Seq<ColumnView>, names: Seq<Seq<char>>, n: int)
    requires
        0 <= n <= names.len(),
        first_taken(t, names.take(n)) is Some,
    ensures
        first_taken(t, names) == first_taken(t, names.take(n)),
    decreases names.len() - n,
{
    if n < names.len() {
        assert(names.take(n + 1).drop_last() =~= names.take(n));
        lemma_first_taken_prefix(t, names, n + 1);
    } else {
        assert(names.take(n) =~= names);
    }
}

/// The prefix of the split columns: the trimmed prefix, or the trimmed column
/// name when the prefix is blank.
pub open spec fn split_prefix(column: Seq<char>, prefix: Seq<char>) -> Seq<char> {
    if trim_spec(prefix).len() == 0 {
        trim_spec(column)
    } else {
        trim_spec(prefix)
    }
}

/// The field a split column holds.
pub open spec fn split_part(k: int) -> DatePart {
    if k == 0 {
        DatePart::Year
    } else if k == 1 {
        DatePart::Month
    } else if k == 2 {
        DatePart::Day
    } else {
        DatePart::Hour
    }
}

/// The table with the four field columns of column `p` appended.
pub open spec fn with_split_columns(t: Seq<ColumnView>, p: int, names: Seq<Seq<char>>) -> Seq<ColumnView> {
    t + Seq::new(
        4,
        |k: int|
            (ColumnView {
                name: names[k],
                logical_type: LogicalType::Integer,
                values: t[p].values.map_values(|v: Option<Seq<char>>| part_cell(v, split_part(k))),
            }),
    )
}

/// The outcome of splitting a column's moments into four field columns.
pub open spec fn split_outcome(
    t: Seq<ColumnView>,
    column: Seq<char>,
    prefix: Seq<char>,
    r: Result<DataTable, TableError>,
) -> bool {
    let names = split_names(split_prefix(column, prefix));
    match first_taken(t, names) {
        Some(k) => r matches Err(TableError::ColumnExists(n)) && n@ == names[k],
        None => match column_position(t, column) {
            Some(p) => r matches Ok(out) && out@ == with_split_columns(t, p, names),
            None => r matches Err(TableError::ColumnNotFound(n)) && n@ == column,
        },
    }
}

/// Adds integer columns `<prefix>_year`, `_month`, `_day` and `_hour` read from
/// a column's moments.
pub fn split_datetime_parts(table: &DataTable, column: &str, prefix: &str) -> (r: Result<
    DataTable,
    TableError,
>)
    ensures
        split_outcome(table@, column@, prefix@, r),
{
    let base = if is_blank(prefix) {
        trim(column)
    } else {
        trim(prefix)
    };
    proof {
        reveal_strlit("_year");
        reveal_strlit("_month");
        reveal_strlit("_day");
        reveal_strlit("_hour");
    }
    let mut names: Vec<String> = Vec::new();
    names.push(concat(base.as_str(), "_year"));
    names.push(concat(base.as_str(), "_month"));
    names.push(concat(base.as_str(), "_day"));
    names.push(concat(base.as_str(), "_hour"));
    assert(names.deep_view() =~= split_names(split_prefix(column@, prefix@)));
    match ensure_time_targets_absent(table, &names) {
        Ok(()) => {},
        Err(e) => return Err(e),
    }
    let pos = match find_column(table, column) {
        Some(p) => p,
        None => return Err(TableError::ColumnNotFound(column.to_owned())),
    };
    proof {
        lemma_column_position(table@, column@);
    }
    let source = &table.columns[pos];
    let year = TableColumn {
        name: names[0].clone(),
        logical_type: LogicalType::Integer,
        values: part_values(&source.values, DatePart::Year),
    };
    let month = TableColumn {
        name: names[1].clone(),
        logical_type: LogicalType::Integer,
        values: part_values(&source.values, DatePart::Month),
    };
    let day = TableColumn {
        name: names[2].clone(),
        logical_type: LogicalType::Integer,
        values: part_values(&source.values, DatePart::Day),
    };
    let hour = TableColumn {
        name: names[3].clone(),
        logical_type: LogicalType::Integer,
        values: part_values(&source.values, DatePart::Hour),
    };
    let t1 = append_column(table, year);
    let t2 = append_column(&t1, month);
    let t3 = append_column(&t2, day);
    let t4 = append_column(&t3, hour);
    let ghost names_v = split_names(split_prefix(column@, prefix@));
    assert(t4@ =~= with_split_columns(table@, pos as int, names_v));
    Ok(t4)
}

/// A cell whose moment lies within `[start, end]`.
pub open spec fn in_window(v: Option<Seq<char>>, start: DateTimeParts, end: DateTimeParts) -> bool {
    match v {
        Some(s) => match parsed_moment(trim_spec(s)) {
            Some(p) => moment_order(start, p) <= 0 && moment_order(p, end) <= 0,
            None => false,
        },
        None => false,
    }
}

/// Whether row `i` of a column holds a moment within `[start, end]`.
pub open spec fn within(c: ColumnView, start: DateTimeParts, end: DateTimeParts) -> spec_fn(int) -> bool {
    |i: int| in_window(c.values[i], start, end)
}

/// The outcome of filtering rows by a time window.
pub open spec fn window_outcome(
    t: Seq<ColumnView>,
    column: Seq<char>,
    start: Seq<char>,
    end: Seq<char>,
    r: Result<DataTable, TableError>,
) -> bool {
    let s = parsed_moment(trim_spec(start));
    let e = parsed_moment(trim_spec(end));
    if trim_spec(start).len() == 0 || trim_spec(end).len() == 0 {
        r == Err::<DataTable, TableError>(TableError::MissingTimeBound)
    } else if s is None {
        r matches Err(TableError::UnparsableTime(n)) && n@ == start
    } else if e is None {
        r matches Err(TableError::UnparsableTime(n)) && n@ == end
    } else if moment_order(s.unwrap(), e.unwrap()) > 0 {
        r == Err::<DataTable, TableError>(TableError::InvertedTimeWindow)
    } else {
        match column_position(t, column) {
            Some(p) => r matches Ok(out) && out@ == select_spec(
                t,
                positions_where(t[p].values.len(), within(t[p], s.unwrap(), e.unwrap())),
            ),
            None => r matches Err(TableError::ColumnNotFound(n)) && n@ == column,
        }
    }
}

/// Keeps the rows whose cell in `column` is a moment within `[start, end]`. Both
/// bounds must be given, readable, and in order.
pub fn filter_rows_by_time_window(table: &DataTable, column: &str, start: &str, end: &str) -> (r:
    Result<DataTable, TableError>)
    ensures
        window_outcome(table@, column@, start@, end@, r),
{
    if is_blank(start) || is_blank(end) {
        return Err(TableError::MissingTimeBound);
    }
    let st = trim(start);
    let from = match parse_datetime_or_timestamp(st.as_str()) {
        Some(p) => p,
        None => return Err(TableError::UnparsableTime(start.to_owned())),
    };
    let et = trim(end);
    let to = match parse_datetime_or_timestamp(et.as_str()) {
        Some(p) => p,
        None => return Err(TableError::UnparsableTime(end.to_owned())),
    };
    if compare_moments(&from, &to) > 0 {
        return Err(TableError::InvertedTimeWindow);
    }
    let pos = match find_column(table, column) {
        Some(p) => p,
        None => return Err(TableError::ColumnNotFound(column.to_owned())),
    };
    proof {
        lemma_column_position(table@, column@);
    }
    let source = &table.columns[pos];
    let ghost keep = within(source@, from, to);
    let mut indexes: Vec<usize> = Vec::new();
    let mut i: usize = 0;
    while i < source.values.len()
        invariant
            0 <= i <= source@.values.len(),
            keep == within(source@, from, to),
            indexes@ == positions_where(i as nat, keep),
        decreases source.values.len() - i,
    {
        let ghost before = indexes@;
        let inside = match &source.values[i] {
            Some(s) => {
                let t = trim(s.as_str());
                match parse_datetime_or_timestamp(t.as_str()) {
                    Some(p) => compare_moments(&from, &p) <= 0 && compare_moments(&p, &to) <= 0,
                    None => false,
                }
            },
            None => false,
        };
        if inside {
            indexes.push(i);
        }
        assert(positions_where((i + 1) as nat, keep) == if keep(i as int) {
            before.push(i)
        } else {
            before
        });
        i += 1;
    }
    Ok(select_rows(table, &indexes))
}

/// The integer a cell holds, when it is present and reads as an `i64`.
pub open spec fn int_cell(v: Option<Seq<char>>) -> Option<int> {
    match v {
        Some(s) => parse_int_spec(s),
        None => None,
    }
}

/// Sorting by an integer column orders its readable cells by value: of two
/// rows of the result whose cells both read as integers, the earlier one holds
/// the smaller (ascending) or the greater (descending) number, whatever their
/// texts look like (9 comes before 10).
pub proof fn lemma_integer_sort_by_value(
    t: Seq<ColumnView>,
    column: Seq<char>,
    ascending: bool,
    r: Result<DataTable, TableError>,
    i: int,
    j: int,
)
    requires
        sort_column_ok(t, column),
        sort_outcome(t, column, ascending, r),
        column_position(t, column) is Some,
        t[column_position(t, column).unwrap()].logical_type == LogicalType::Integer,
        0 <= i < j < height_of(t),
    ensures
        r is Ok,
        ({
            let p = column_position(t, column).unwrap();
            let x = int_cell(cell_at(r->Ok_0@[p], i));
            let y = int_cell(cell_at(r->Ok_0@[p], j));
            x is Some && y is Some ==> if ascending {
                x->0 <= y->0
            } else {
                x->0 >= y->0
            }
        }),
{
    let p = column_position(t, column).unwrap();
    crate::model::lemma_column_position(t, column);
    let out = r->Ok_0;
    let keys = column_keys(t[p], height_of(t));
    let perm = choose|perm: Seq<usize>| sorted_stably(perm, keys, ascending) && out@ == select_spec(t, perm);
    assert forall|m: int| 0 <= m < perm.len() implies (#[trigger] perm[m] as int) < t[p].values.len() by {}
    crate::rows::lemma_pick_at(t[p].values, perm, i);
    crate::rows::lemma_pick_at(t[p].values, perm, j);
    assert(out@[p].values == crate::rows::pick(t[p].values, perm));
    assert(cell_at(out@[p], i) == cell_at(t[p], perm[i] as int));
    assert(cell_at(out@[p], j) == cell_at(t[p], perm[j] as int));
    assert(keys[perm[i] as int] == value_key(cell_at(t[p], perm[i] as int), LogicalType::Integer));
    assert(keys[perm[j] as int] == value_key(cell_at(t[p], perm[j] as int), LogicalType::Integer));
    assert(crate::sorting::directed(crate::sorting::key_order(keys[perm[i] as int], keys[perm[j] as int]), ascending) <= 0);
}

/// Sorting by a column puts its missing cells after the present ones
/// (ascending) or before them (descending), and orders the present cells of a
/// text, boolean or date-time column by their text: of two rows of the
/// result, the earlier one's text comes first (ascending) or last.
pub proof fn lemma_sort_places_cells(
    t: Seq<ColumnView>,
    column: Seq<char>,
    ascending: bool,
    r: Result<DataTable, TableError>,
    i: int,
    j: int,
)
    requires
        sort_column_ok(t, column),
        sort_outcome(t, column, ascending, r),
        column_position(t, column) is Some,
        t[column_position(t, column).unwrap()].logical_type != LogicalType::Float,
        0 <= i < j < height_of(t),
    ensures
        r is Ok,
        ({
            let p = column_position(t, column).unwrap();
            let a = cell_at(r->Ok_0@[p], i);
            let b = cell_at(r->Ok_0@[p], j);
            &&& ascending && a is None ==> b is None
            &&& !ascending && a is Some ==> b is Some
            &&& t[p].logical_type != LogicalType::Integer && a is Some && b is Some ==> if ascending {
                crate::sorting::text_order(a->0, b->0) <= 0
            } else {
                crate::sorting::text_order(a->0, b->0) >= 0
            }
        }),
{
    let p = column_position(t, column).unwrap();
    crate::model::lemma_column_position(t, column);
    let out = r->Ok_0;
    let ty = t[p].logical_type;
    let keys = column_keys(t[p], height_of(t));
    let perm = choose|perm: Seq<usize>| sorted_stably(perm, keys, ascending) && out@ == select_spec(t, perm);
    assert forall|m: int| 0 <= m < perm.len() implies (#[trigger] perm[m] as int) < t[p].values.len() by {}
    crate::rows::lemma_pick_at(t[p].values, perm, i);
    crate::rows::lemma_pick_at(t[p].values, perm, j);
    assert(out@[p].values == crate::rows::pick(t[p].values, perm));
    assert(cell_at(out@[p], i) == cell_at(t[p], perm[i] as int));
    assert(cell_at(out@[p], j) == cell_at(t[p], perm[j] as int));
    assert(keys[perm[i] as int] == value_key(cell_at(t[p], perm[i] as int), ty));
    assert(keys[perm[j] as int] == value_key(cell_at(t[p], perm[j] as int), ty));
    assert(crate::sorting::directed(crate::sorting::key_order(keys[perm[i] as int], keys[perm[j] as int]), ascending) <= 0);
}

} // verus!
