//! Reading the values typed into forms: lists separated by commas or
//! semicolons, numbers with defaults and bounds, sort directions, and the
//! checks made on them before an operation runs.

use vstd::prelude::*;
use crate::error::TableError;
use crate::model::{has_name, DataTable, LogicalType};
use crate::options::{
    adjacent_compare_mode_of, aggregate_function_of, compare_operator_of, priority_placement_of,
    time_diff_unit_of, fusion_alignment_mode_label, AdjacentCompareMode, AggregateFunction,
    CompareOperator, FusionAlignmentMode, PriorityPlacement, TimeDiffUnit,
};
use crate::viz::VisualizationFieldSuggestion;
use crate::number::{int_text_spec, parse_int_spec, parse_i64, parse_usize, parse_usize_spec};
use crate::text::{
    ascii_lower, is_blank, join_spec, join_texts, string_from_chars, text_eq,
    to_ascii_lowercase, to_chars, trim, trim_spec,
};

verus! {

/// The characters that separate the entries of a typed list.
pub open spec fn is_list_sep(c: char) -> bool {
    c == ',' || c == '，' || c == ';' || c == '；'
}

/// The pieces of a text between separators, empty pieces included.
pub open spec fn pieces(s: Seq<char>) -> Seq<Seq<char>>
    decreases s.len(),
{
    if s.len() == 0 {
        seq![Seq::<char>::empty()]
    } else {
        let p = pieces(s.drop_last());
        if is_list_sep(s.last()) {
            p.push(Seq::<char>::empty())
        } else {
            p.update(p.len() - 1, p.last().push(s.last()))
        }
    }
}

/// The trimmed pieces that are not empty.
pub open spec fn kept_entries(p: Seq<Seq<char>>) -> Seq<Seq<char>>
    decreases p.len(),
{
    if p.len() == 0 {
        Seq::empty()
    } else {
        let k = kept_entries(p.drop_last());
        let t = trim_spec(p.last());
        if t.len() > 0 {
            k.push(t)
        } else {
            k
        }
    }
}

/// Every kept entry is non-empty text with nothing to trim.
proof fn lemma_kept_entries_trimmed(p: Seq<Seq<char>>, k: int)
    requires
        0 <= k < kept_entries(p).len(),
    ensures
        kept_entries(p)[k].len() > 0,
        trim_spec(kept_entries(p)[k]) == kept_entries(p)[k],
    decreases p.len(),
{
    let prev = kept_entries(p.drop_last());
    let t = trim_spec(p.last());
    if t.len() > 0 && k == prev.len() {
        crate::text::lemma_trim_idempotent(p.last());
    } else {
        lemma_kept_entries_trimmed(p.drop_last(), k);
    }
}

/// The entries of a typed list.
pub open spec fn list_entries(s: Seq<char>) -> Seq<Seq<char>> {
    kept_entries(pieces(s))
}

/// The entries of a typed list are non-empty and have no surrounding
/// whitespace.
pub proof fn lemma_list_entries_trimmed(s: Seq<char>, k: int)
    requires
        0 <= k < list_entries(s).len(),
    ensures
        list_entries(s)[k].len() > 0,
        trim_spec(list_entries(s)[k]) == list_entries(s)[k],
{
    lemma_kept_entries_trimmed(pieces(s), k);
}

proof fn lemma_pieces_nonempty(s: Seq<char>)
    ensures
        pieces(s).len() >= 1,
    decreases s.len(),
{
    if s.len() > 0 {
        lemma_pieces_nonempty(s.drop_last());
    }
}

fn keep_piece(out: &mut Vec<String>, piece: &Vec<char>)
    ensures
        final(out).deep_view() == old(out).deep_view() + (if trim_spec(piece@).len() > 0 {
            seq![trim_spec(piece@)]
        } else {
            Seq::<Seq<char>>::empty()
        }),
{
    let text = string_from_chars(piece);
    let t = trim(text.as_str());
    let ghost before = out.deep_view();
    if !t.as_str().is_empty() {
        out.push(t);
        assert(out.deep_view() =~= before + seq![trim_spec(piece@)]);
    } else {
        assert(out.deep_view() =~= before + Seq::<Seq<char>>::empty());
    }
}

/// Splits a typed list at commas and semicolons (ASCII or full-width),
/// trims each entry and drops the empty ones.
pub fn split_csv_like(value: &str) -> (r: Vec<String>)
    ensures
        r.deep_view() == list_entries(value@),
{
    let v = to_chars(value);
    let mut out: Vec<String> = Vec::new();
    let mut cur: Vec<char> = Vec::new();
    let mut i: usize = 0;
    assert(v@.take(0) =~= Seq::<char>::empty());
    while i < v.len()
        invariant
            v@ == value@,
            0 <= i <= v@.len(),
            pieces(v@.take(i as int)).len() >= 1,
            out.deep_view() == kept_entries(pieces(v@.take(i as int)).drop_last()),
            cur@ == pieces(v@.take(i as int)).last(),
        decreases v.len() - i,
    {
        let c = v[i];
        let ghost p = pieces(v@.take(i as int));
        assert(v@.take(i + 1).drop_last() =~= v@.take(i as int));
        assert(v@.take(i + 1).last() == c);
        if c == ',' || c == '，' || c == ';' || c == '；' {
            keep_piece(&mut out, &cur);
            cur = Vec::new();
            let ghost q = p.push(Seq::<char>::empty());
            assert(q.drop_last() =~= p);
            assert(p =~= p.drop_last().push(p.last()));
        } else {
            cur.push(c);
            let ghost q = p.update(p.len() - 1, p.last().push(c));
            assert(q.drop_last() =~= p.drop_last());
        }
        i += 1;
    }
    assert(v@.take(v@.len() as int) =~= v@);
    let ghost p = pieces(v@);
    assert(p =~= p.drop_last().push(p.last()));
    keep_piece(&mut out, &cur);
    out
}

/// The number a trimmed text gives, or the default.
pub open spec fn usize_or(s: Seq<char>, default_value: usize) -> usize {
    match parse_usize_spec(trim_spec(s)) {
        Some(v) => v as usize,
        None => default_value,
    }
}

/// Parses a trimmed count, falling back to the default.
pub fn parse_usize_or_default(value: &str, default_value: usize) -> (r: usize)
    ensures
        r == usize_or(value@, default_value),
{
    let t = trim(value);
    match parse_usize(t.as_str()) {
        Some(v) => v,
        None => default_value,
    }
}

/// `x.clamp(lo, hi)`.
pub open spec fn clamped(x: usize, lo: usize, hi: usize) -> usize {
    if x < lo {
        lo
    } else if x > hi {
        hi
    } else {
        x
    }
}

/// Parses a count with a default and keeps it within bounds.
pub fn parse_bounded_usize(value: &str, default_value: usize, min_value: usize, max_value: usize) -> (r: usize)
    requires
        min_value <= max_value,
    ensures
        r == clamped(usize_or(value@, default_value), min_value, max_value),
{
    let v = parse_usize_or_default(value, default_value);
    if v < min_value {
        min_value
    } else if v > max_value {
        max_value
    } else {
        v
    }
}

/// The signed number a trimmed text gives, or the default.
pub open spec fn i64_or(s: Seq<char>, default_value: i64) -> i64 {
    match parse_int_spec(trim_spec(s)) {
        Some(v) => v as i64,
        None => default_value,
    }
}

/// Parses a trimmed signed number, falling back to the default.
pub fn parse_i64_or_default(value: &str, default_value: i64) -> (r: i64)
    ensures
        r == i64_or(value@, default_value),
{
    let t = trim(value);
    match parse_i64(t.as_str()) {
        Some(v) => v,
        None => default_value,
    }
}

} // verus!

verus! {

/// Whether an entry asks for descending order.
pub open spec fn is_descending_word(s: Seq<char>) -> bool {
    let w = ascii_lower(trim_spec(s));
    w == "desc"@ || w == "降序"@
}

/// One direction per sort column: `true` for ascending. Entry `i` of the typed
/// list decides column `i`; columns past the list take the last entry; an
/// empty list means ascending throughout.
pub open spec fn sort_directions(s: Seq<char>, width: nat) -> Seq<bool> {
    let parts = list_entries(s);
    Seq::new(
        width,
        |i: int|
            if parts.len() == 0 {
                true
            } else {
                !is_descending_word(if i < parts.len() { parts[i] } else { parts.last() })
            },
    )
}

fn descending_word(s: &str) -> (r: bool)
    ensures
        r == is_descending_word(s@),
{
    let t = trim(s);
    let w = to_ascii_lowercase(t.as_str());
    text_eq(w.as_str(), "desc") || text_eq(w.as_str(), "降序")
}

/// Reads the sort directions typed for `width` sort columns.
pub fn parse_sort_directions(value: &str, width: usize) -> (r: Vec<bool>)
    ensures
        r@ == sort_directions(value@, width as nat),
{
    let parts = split_csv_like(value);
    let ghost expected = sort_directions(value@, width as nat);
    let mut out: Vec<bool> = Vec::new();
    let mut i: usize = 0;
    while i < width
        invariant
            0 <= i <= width,
            parts.deep_view() == list_entries(value@),
            expected == sort_directions(value@, width as nat),
            out@ == expected.take(i as int),
        decreases width - i,
    {
        let d = if parts.len() == 0 {
            true
        } else if i < parts.len() {
            !descending_word(parts[i].as_str())
        } else {
            !descending_word(parts[parts.len() - 1].as_str())
        };
        out.push(d);
        assert(out@ =~= expected.take(i + 1));
        i += 1;
    }
    assert(expected.take(width as int) =~= expected);
    out
}

/// What a chart field becomes when a suggestion arrives: `None` leaves it as
/// it is. A blank suggestion clears the field only when everything is
/// overwritten; otherwise the suggestion fills a field that is blank or
/// holds the "nothing chosen" word.
pub open spec fn field_update(overwrite_all: bool, current: Seq<char>, suggested: Seq<char>) -> Option<Seq<char>> {
    if trim_spec(suggested).len() == 0 {
        if overwrite_all {
            Some(Seq::empty())
        } else {
            None
        }
    } else if overwrite_all || trim_spec(current).len() == 0 || trim_spec(current) == "未选择"@ {
        Some(suggested)
    } else {
        None
    }
}

/// Decides the new value of a chart field (see `field_update`).
pub fn set_visualization_field(overwrite_all: bool, current_value: &str, suggested_value: &str) -> (r: Option<String>)
    ensures
        r.deep_view() == field_update(overwrite_all, current_value@, suggested_value@),
{
    if is_blank(suggested_value) {
        if overwrite_all {
            return Some(String::new());
        }
        return None;
    }
    let current = trim(current_value);
    if overwrite_all || current.as_str().is_empty() || text_eq(current.as_str(), "未选择") {
        Some(suggested_value.to_owned())
    } else {
        None
    }
}

/// A field's value after a suggestion (see `field_update`).
pub open spec fn updated_field(overwrite_all: bool, current: Seq<char>, suggested: Seq<char>) -> Seq<char> {
    match field_update(overwrite_all, current, suggested) {
        Some(v) => v,
        None => current,
    }
}

/// The text fields of the chart form.
#[derive(Clone, Debug)]
pub struct ChartFields {
    pub title: String,
    pub x_label: String,
    pub y_label: String,
    pub x_column: String,
    pub y_column: String,
    pub category_column: String,
    pub value_column: String,
    pub group_column: String,
    pub matrix_columns: String,
}

fn update_field(field: &mut String, overwrite_all: bool, suggested: &str)
    ensures
        final(field)@ == updated_field(overwrite_all, old(field)@, suggested@),
{
    match set_visualization_field(overwrite_all, field.as_str(), suggested) {
        Some(v) => {
            *field = v;
        },
        None => {},
    }
}

/// Fills the chart form from a suggestion, field by field (see
/// `field_update`); the matrix columns are suggested joined by ", ".
pub fn apply_visualization_suggestion(
    fields: &mut ChartFields,
    suggestion: &VisualizationFieldSuggestion,
    overwrite_all: bool,
)
    ensures
        final(fields).title@ == updated_field(overwrite_all, old(fields).title@, suggestion.title@),
        final(fields).x_label@ == updated_field(overwrite_all, old(fields).x_label@, suggestion.x_label@),
        final(fields).y_label@ == updated_field(overwrite_all, old(fields).y_label@, suggestion.y_label@),
        final(fields).x_column@ == updated_field(overwrite_all, old(fields).x_column@, suggestion.x_column@),
        final(fields).y_column@ == updated_field(overwrite_all, old(fields).y_column@, suggestion.y_column@),
        final(fields).category_column@ == updated_field(
            overwrite_all,
            old(fields).category_column@,
            suggestion.category_column@,
        ),
        final(fields).value_column@ == updated_field(overwrite_all, old(fields).value_column@, suggestion.value_column@),
        final(fields).group_column@ == updated_field(overwrite_all, old(fields).group_column@, suggestion.group_column@),
        final(fields).matrix_columns@ == updated_field(
            overwrite_all,
            old(fields).matrix_columns@,
            join_spec(suggestion.matrix_columns.deep_view(), ", "@),
        ),
{
    update_field(&mut fields.title, overwrite_all, suggestion.title.as_str());
    update_field(&mut fields.x_label, overwrite_all, suggestion.x_label.as_str());
    update_field(&mut fields.y_label, overwrite_all, suggestion.y_label.as_str());
    update_field(&mut fields.x_column, overwrite_all, suggestion.x_column.as_str());
    update_field(&mut fields.y_column, overwrite_all, suggestion.y_column.as_str());
    update_field(&mut fields.category_column, overwrite_all, suggestion.category_column.as_str());
    update_field(&mut fields.value_column, overwrite_all, suggestion.value_column.as_str());
    update_field(&mut fields.group_column, overwrite_all, suggestion.group_column.as_str());
    let matrix = join_texts(&suggestion.matrix_columns, ", ");
    update_field(&mut fields.matrix_columns, overwrite_all, matrix.as_str());
}

/// The column type a typed word names; anything else is text.
pub open spec fn logical_type_of(s: Seq<char>) -> LogicalType {
    let w = ascii_lower(trim_spec(s));
    if w == "integer"@ || w == "int"@ || w == "整数"@ {
        LogicalType::Integer
    } else if w == "float"@ || w == "double"@ || w == "浮点"@ {
        LogicalType::Float
    } else if w == "bool"@ || w == "boolean"@ || w == "布尔"@ {
        LogicalType::Boolean
    } else if w == "datetime"@ || w == "time"@ || w == "时间"@ {
        LogicalType::DateTime
    } else {
        LogicalType::Text
    }
}

/// Reads a column type from its typed word.
pub fn parse_logical_type(value: &str) -> (r: LogicalType)
    ensures
        r == logical_type_of(value@),
{
    let t = trim(value);
    let w = to_ascii_lowercase(t.as_str());
    let s = w.as_str();
    if text_eq(s, "integer") || text_eq(s, "int") || text_eq(s, "整数") {
        LogicalType::Integer
    } else if text_eq(s, "float") || text_eq(s, "double") || text_eq(s, "浮点") {
        LogicalType::Float
    } else if text_eq(s, "bool") || text_eq(s, "boolean") || text_eq(s, "布尔") {
        LogicalType::Boolean
    } else if text_eq(s, "datetime") || text_eq(s, "time") || text_eq(s, "时间") {
        LogicalType::DateTime
    } else {
        LogicalType::Text
    }
}

/// Reads an aggregate function from its typed word.
pub fn parse_aggregate_function(value: &str) -> (r: AggregateFunction)
    ensures
        r == aggregate_function_of(value@),
{
    AggregateFunction::from_text(value)
}

/// Reads a comparison operator from its typed word.
pub fn parse_compare_operator(value: &str) -> (r: CompareOperator)
    ensures
        r == compare_operator_of(value@),
{
    CompareOperator::from_text(value)
}

/// Reads a time-difference unit from its typed word.
pub fn parse_time_diff_unit(value: &str) -> (r: TimeDiffUnit)
    ensures
        r == time_diff_unit_of(value@),
{
    TimeDiffUnit::from_text(value)
}

/// Reads where prioritised rows go from its typed word.
pub fn parse_priority_placement(value: &str) -> (r: PriorityPlacement)
    ensures
        r == priority_placement_of(value@),
{
    PriorityPlacement::from_text(value)
}

/// Reads how adjacent rows are compared from its typed word.
pub fn parse_adjacent_compare_mode(value: &str) -> (r: AdjacentCompareMode)
    ensures
        r == adjacent_compare_mode_of(value@),
{
    AdjacentCompareMode::from_text(value)
}

/// The value, or the fallback when the value is blank.
pub open spec fn or_fallback(value: Seq<char>, fallback: Seq<char>) -> Seq<char> {
    if trim_spec(value).len() == 0 {
        fallback
    } else {
        value
    }
}

/// The value, or the fallback when the value is blank.
pub fn display_or_fallback(value: &str, fallback: &str) -> (r: String)
    ensures
        r@ == or_fallback(value@, fallback@),
{
    if is_blank(value) {
        fallback.to_owned()
    } else {
        value.to_owned()
    }
}

/// The value, or the "not set" word when the value is blank.
pub fn display_optional_text<'a>(value: &'a str) -> (r: &'a str)
    ensures
        r@ == or_fallback(value@, "未设置"@),
{
    if is_blank(value) {
        "未设置"
    } else {
        value
    }
}

/// The values joined by ", ", or the "not set" word when there are none.
pub open spec fn listed_or_unset(values: Seq<Seq<char>>) -> Seq<char> {
    if values.len() == 0 {
        "未设置"@
    } else {
        join_spec(values, ", "@)
    }
}

/// The values joined by ", ", or the "not set" word when there are none.
pub fn display_optional_vec(values: &Vec<String>) -> (r: String)
    ensures
        r@ == listed_or_unset(values.deep_view()),
{
    if values.len() == 0 {
        "未设置".to_owned()
    } else {
        join_texts(values, ", ")
    }
}

/// A typed column name is acceptable when it is blank or names a column.
pub open spec fn optional_column_ok(t: Seq<crate::model::ColumnView>, name: Seq<char>) -> bool {
    trim_spec(name).len() == 0 || has_name(t, trim_spec(name))
}

/// Checks a typed column name: blank, or the (trimmed) name of a column.
pub fn validate_optional_column(table: &DataTable, column_name: &str) -> (r: Result<(), TableError>)
    ensures
        optional_column_ok(table@, column_name@) ==> r is Ok,
        !optional_column_ok(table@, column_name@) ==> (r matches Err(TableError::ColumnNotFound(n))
            && n@ == trim_spec(column_name@)),
{
    let t = trim(column_name);
    if t.as_str().is_empty() {
        return Ok(());
    }
    if crate::model::contains_column(table, t.as_str()) {
        Ok(())
    } else {
        Err(TableError::ColumnNotFound(t))
    }
}

} // verus!

verus! {

/// Position of the first typed name that is neither blank nor a column name.
pub open spec fn first_bad_column(t: Seq<crate::model::ColumnView>, names: Seq<Seq<char>>) -> Option<int>
    decreases names.len(),
{
    if names.len() == 0 {
        None
    } else {
        match first_bad_column(t, names.drop_last()) {
            Some(k) => Some(k),
            None => if optional_column_ok(t, names.last()) {
                None
            } else {
                Some(names.len() - 1)
            },
        }
    }
}

/// Checks each typed column name in turn; the first one that names no column
/// is reported.
pub fn validate_column_list(table: &DataTable, column_names: &Vec<String>) -> (r: Result<(), TableError>)
    ensures
        match first_bad_column(table@, column_names.deep_view()) {
            None => r is Ok,
            Some(k) => r matches Err(TableError::ColumnNotFound(n)) && n@ == trim_spec(
                column_names.deep_view()[k],
            ),
        },
{
    let ghost names = column_names.deep_view();
    let mut i: usize = 0;
    while i < column_names.len()
        invariant
            0 <= i <= names.len(),
            names == column_names.deep_view(),
            first_bad_column(table@, names.take(i as int)) is None,
        decreases column_names.len() - i,
    {
        assert(names.take(i + 1).drop_last() =~= names.take(i as int));
        assert(names.take(i + 1).last() == column_names@[i as int]@);
        match validate_optional_column(table, column_names[i].as_str()) {
            Ok(()) => {},
            Err(e) => {
                proof {
                    lemma_first_bad_prefix(table@, names, i as int + 1);
                }
                return Err(e);
            },
        }
        i += 1;
    }
    assert(names.take(names.len() as int) =~= names);
    Ok(())
}

proof fn lemma_first_bad_prefix(t: Seq<crate::model::ColumnView>, names: Seq<Seq<char>>, n: int)
    requires
        0 <= n <= names.len(),
        first_bad_column(t, names.take(n)) is Some,
    ensures
        first_bad_column(t, names) == first_bad_column(t, names.take(n)),
    decreases names.len() - n,
{
    if n < names.len() {
        assert(names.take(n + 1).drop_last() =~= names.take(n));
        lemma_first_bad_prefix(t, names, n + 1);
    } else {
        assert(names.take(n) =~= names);
    }
}

/// What an optional typed count gives: nothing when blank, an error naming the
/// field when it is not a count or is zero.
pub open spec fn optional_count(value: Seq<char>) -> Option<Option<int>> {
    let t = trim_spec(value);
    if t.len() == 0 {
        Some(None)
    } else {
        match parse_usize_spec(t) {
            Some(v) => if v == 0 {
                None
            } else {
                Some(Some(v))
            },
            None => None,
        }
    }
}

/// Reads an optional positive count from a form field called `label`.
pub fn parse_optional_usize(value: &str, label: &str) -> (r: Result<Option<usize>, TableError>)
    ensures
        trim_spec(value@).len() == 0 ==> r == Ok::<Option<usize>, TableError>(None),
        trim_spec(value@).len() > 0 ==> match parse_usize_spec(trim_spec(value@)) {
            None => r matches Err(TableError::InvalidNumber(l, t)) && l@ == label@ && t@ == trim_spec(
                value@,
            ),
            Some(v) => if v == 0 {
                r matches Err(TableError::NotPositive(l)) && l@ == label@
            } else {
                r == Ok::<Option<usize>, TableError>(Some(v as usize))
            },
        },
{
    let t = trim(value);
    if t.as_str().is_empty() {
        return Ok(None);
    }
    match parse_usize(t.as_str()) {
        None => Err(TableError::InvalidNumber(label.to_owned(), t)),
        Some(v) => if v == 0 {
            Err(TableError::NotPositive(label.to_owned()))
        } else {
            Ok(Some(v))
        },
    }
}

/// Reads an optional positive signed number from a form field called `label`.
pub fn parse_optional_i64(value: &str, label: &str) -> (r: Result<Option<i64>, TableError>)
    ensures
        trim_spec(value@).len() == 0 ==> r == Ok::<Option<i64>, TableError>(None),
        trim_spec(value@).len() > 0 ==> match parse_int_spec(trim_spec(value@)) {
            None => r matches Err(TableError::InvalidNumber(l, t)) && l@ == label@ && t@ == trim_spec(
                value@,
            ),
            Some(v) => if v <= 0 {
                r matches Err(TableError::NotPositive(l)) && l@ == label@
            } else {
                r == Ok::<Option<i64>, TableError>(Some(v as i64))
            },
        },
{
    let t = trim(value);
    if t.as_str().is_empty() {
        return Ok(None);
    }
    match parse_i64(t.as_str()) {
        None => Err(TableError::InvalidNumber(label.to_owned(), t)),
        Some(v) => if v <= 0 {
            Err(TableError::NotPositive(label.to_owned()))
        } else {
            Ok(Some(v))
        },
    }
}

/// `i32::from_str`: as `i64::from_str`, within the range of `i32`.
pub open spec fn parse_i32_spec(s: Seq<char>) -> Option<int> {
    match parse_int_spec(s) {
        Some(v) => if i32::MIN <= v && v <= i32::MAX {
            Some(v)
        } else {
            None
        },
        None => None,
    }
}

/// The entries that read as `i32`, in order; the others are skipped.
pub open spec fn i32_entries(entries: Seq<Seq<char>>) -> Seq<i32>
    decreases entries.len(),
{
    if entries.len() == 0 {
        Seq::empty()
    } else {
        let prev = i32_entries(entries.drop_last());
        match parse_i32_spec(entries.last()) {
            Some(v) => prev.push(v as i32),
            None => prev,
        }
    }
}

/// Reads the dataset ids of a typed list (see `i32_entries`).
pub fn parse_dataset_ids(value: &str) -> (r: Vec<i32>)
    ensures
        r@ == i32_entries(list_entries(value@)),
{
    let entries = split_csv_like(value);
    let ghost es = entries.deep_view();
    let mut out: Vec<i32> = Vec::new();
    let mut i: usize = 0;
    while i < entries.len()
        invariant
            es == entries.deep_view(),
            0 <= i <= es.len(),
            out@ == i32_entries(es.take(i as int)),
        decreases entries.len() - i,
    {
        assert(es.take(i + 1).drop_last() =~= es.take(i as int));
        assert(es.take(i + 1).last() == entries[i as int]@);
        match parse_i64(entries[i].as_str()) {
            Some(v) => {
                if -2147483648 <= v && v <= 2147483647 {
                    out.push(v as i32);
                }
            },
            None => {},
        }
        i += 1;
    }
    assert(es.take(es.len() as int) =~= es);
    out
}

/// The values a fusion run starts from when its form fields are blank.
#[derive(Clone, Debug)]
pub struct FusionDefaults {
    pub secondary_dataset_ids: Vec<i32>,
    pub object_keys: Vec<String>,
    pub time_column: String,
    pub alignment_mode: FusionAlignmentMode,
    pub time_window_seconds: i64,
    pub resample_seconds: i64,
}

/// The text fields of the fusion form.
#[derive(Clone, Debug)]
pub struct FusionForm {
    pub secondary_dataset_ids: String,
    pub object_keys: String,
    pub time_column: String,
    pub alignment_mode: String,
    pub time_window_seconds: String,
    pub resample_seconds: String,
}

/// The dataset ids as text, joined by ", ".
pub open spec fn ids_text(ids: Seq<i32>) -> Seq<char> {
    join_spec(ids.map_values(|x: i32| int_text_spec(x as int)), ", "@)
}

fn ids_to_text(ids: &Vec<i32>) -> (r: String)
    ensures
        r@ == ids_text(ids@),
{
    let mut parts: Vec<String> = Vec::new();
    let mut i: usize = 0;
    while i < ids.len()
        invariant
            0 <= i <= ids@.len(),
            parts.deep_view() == ids@.take(i as int).map_values(|x: i32| int_text_spec(x as int)),
        decreases ids.len() - i,
    {
        let ghost before = parts.deep_view();
        parts.push(crate::number::i64_to_text(ids[i] as i64));
        assert(parts.deep_view() =~= before.push(int_text_spec(ids@[i as int] as int)));
        assert(ids@.take(i + 1).map_values(|x: i32| int_text_spec(x as int)) =~= ids@.take(
            i as int,
        ).map_values(|x: i32| int_text_spec(x as int)).push(int_text_spec(ids@[i as int] as int)));
        i += 1;
    }
    assert(ids@.take(ids@.len() as int) =~= ids@);
    join_texts(&parts, ", ")
}

/// Fills the blank fusion form fields from the defaults; the alignment mode
/// and the two durations are always reset.
pub fn apply_fusion_defaults(form: &mut FusionForm, defaults: &FusionDefaults)
    ensures
        final(form).secondary_dataset_ids@ == if trim_spec(old(form).secondary_dataset_ids@).len() == 0 {
            ids_text(defaults.secondary_dataset_ids@)
        } else {
            old(form).secondary_dataset_ids@
        },
        final(form).object_keys@ == if trim_spec(old(form).object_keys@).len() == 0 {
            join_spec(defaults.object_keys.deep_view(), ", "@)
        } else {
            old(form).object_keys@
        },
        final(form).time_column@ == if trim_spec(old(form).time_column@).len() == 0 {
            defaults.time_column@
        } else {
            old(form).time_column@
        },
        final(form).alignment_mode@ == fusion_alignment_mode_label(defaults.alignment_mode),
        final(form).time_window_seconds@ == int_text_spec(defaults.time_window_seconds as int),
        final(form).resample_seconds@ == int_text_spec(defaults.resample_seconds as int),
{
    if is_blank(form.secondary_dataset_ids.as_str()) {
        form.secondary_dataset_ids = ids_to_text(&defaults.secondary_dataset_ids);
    }
    if is_blank(form.object_keys.as_str()) {
        form.object_keys = join_texts(&defaults.object_keys, ", ");
    }
    if is_blank(form.time_column.as_str()) {
        form.time_column = defaults.time_column.clone();
    }
    form.alignment_mode = defaults.alignment_mode.as_str().to_owned();
    form.time_window_seconds = crate::number::i64_to_text(defaults.time_window_seconds);
    form.resample_seconds = crate::number::i64_to_text(defaults.resample_seconds);
}

} // verus!
