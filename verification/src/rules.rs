//! Checking the quality rules a user types in for a dataset: the named
//! columns must exist, a composite key needs two fields, a range rule needs a
//! column and a bound, a length rule a column and a limit, and a time-gap rule
//! a recognisable time column. The missing-rate threshold and the range
//! bounds are floating-point numbers, read and compared by the caller; what
//! the checks need of them (which bounds were given, whether the lower one
//! exceeds the upper one) is passed in.

use vstd::prelude::*;
use crate::datetime::{looks_like_datetime, parsed_datetime};
use crate::error::TableError;
use crate::forms::{
    first_bad_column, list_entries, optional_column_ok, optional_count, parse_optional_i64, parse_optional_usize,
    split_csv_like, validate_column_list, validate_optional_column,
};
use crate::model::{ColumnView, DataTable, LogicalType};
use crate::number::{decimal_spec, i64_to_text, int_text_spec, parse_int_spec, parse_usize_spec, usize_to_text};
use crate::text::{concat, trim, trim_spec};

verus! {

/// The column settings of a quality-rule form, trimmed.
#[derive(Clone, Debug)]
pub struct RuleColumns {
    pub primary_key: String,
    pub composite_keys: Vec<String>,
    pub time_column: String,
    pub range_column: String,
    pub length_column: String,
}

/// The first typed column name (primary key, the composite fields in order,
/// time, range, length column) that is neither blank nor a column's name,
/// trimmed.
pub open spec fn first_unknown_rule_column(
    t: Seq<ColumnView>,
    primary: Seq<char>,
    composite: Seq<char>,
    time: Seq<char>,
    range: Seq<char>,
    length: Seq<char>,
) -> Option<Seq<char>> {
    if !optional_column_ok(t, primary) {
        Some(trim_spec(primary))
    } else {
        match first_bad_column(t, list_entries(composite)) {
            Some(k) => Some(trim_spec(list_entries(composite)[k])),
            None => if !optional_column_ok(t, time) {
                Some(trim_spec(time))
            } else if !optional_column_ok(t, range) {
                Some(trim_spec(range))
            } else if !optional_column_ok(t, length) {
                Some(trim_spec(length))
            } else {
                None
            },
        }
    }
}

/// Checks the column settings of a quality-rule form (the composite fields
/// given as one text separated by commas or semicolons): an unknown column is
/// refused by name, a composite key of a single field is refused, and
/// otherwise the trimmed settings come back.
pub fn check_rule_columns(
    table: &DataTable,
    primary_key: &str,
    composite_keys: &str,
    time_column: &str,
    range_column: &str,
    length_column: &str,
) -> (r: Result<RuleColumns, TableError>)
    ensures
        match first_unknown_rule_column(table@, primary_key@, composite_keys@, time_column@, range_column@, length_column@) {
            Some(n) => r matches Err(TableError::ColumnNotFound(m)) && m@ == n,
            None => if list_entries(composite_keys@).len() == 1 {
                r == Err::<RuleColumns, TableError>(TableError::CompositeKeysTooFew)
            } else {
                r matches Ok(c) && c.primary_key@ == trim_spec(primary_key@) && c.composite_keys.deep_view()
                    == list_entries(composite_keys@) && c.time_column@ == trim_spec(time_column@)
                    && c.range_column@ == trim_spec(range_column@) && c.length_column@ == trim_spec(length_column@)
            },
        },
{
    validate_optional_column(table, primary_key)?;
    let composite = split_csv_like(composite_keys);
    validate_column_list(table, &composite)?;
    validate_optional_column(table, time_column)?;
    validate_optional_column(table, range_column)?;
    validate_optional_column(table, length_column)?;
    if composite.len() == 1 {
        return Err(TableError::CompositeKeysTooFew);
    }
    Ok(RuleColumns {
        primary_key: trim(primary_key),
        composite_keys: composite,
        time_column: trim(time_column),
        range_column: trim(range_column),
        length_column: trim(length_column),
    })
}

/// A column that a time-gap rule can use: the one named by the trimmed time
/// setting, or, when that is blank, one typed as date-time or holding a cell
/// that reads as a date-time.
pub open spec fn time_gap_column(c: ColumnView, time: Seq<char>) -> bool {
    c.name == trim_spec(time) || (trim_spec(time).len() == 0 && (c.logical_type == LogicalType::DateTime
        || exists|j: int| 0 <= j < c.values.len() && c.values[j] is Some && parsed_datetime(c.values[j]->0) is Some))
}

/// Whether the table has a column a time-gap rule can use.
pub open spec fn has_time_gap_column(t: Seq<ColumnView>, time: Seq<char>) -> bool {
    exists|i: int| 0 <= i < t.len() && time_gap_column(t[i], time)
}

/// What the numeric settings of a quality-rule form come to: the length
/// limit and the time gap as read (blank is no value; text that is not a
/// number, or not above zero, is refused naming the field), then the checks
/// of the range, length and time-gap rules, in that order.
pub open spec fn rule_limits_outcome(
    t: Seq<ColumnView>,
    time: Seq<char>,
    range: Seq<char>,
    has_min: bool,
    has_max: bool,
    min_above_max: bool,
    length: Seq<char>,
    max_length: Option<int>,
    gap: Option<int>,
) -> Result<(Option<int>, Option<int>), TableError> {
    let range_rule = trim_spec(range).len() > 0 || has_min || has_max;
    let length_rule = trim_spec(length).len() > 0 || max_length is Some;
    if range_rule && trim_spec(range).len() == 0 {
        Err(TableError::RangeColumnRequired)
    } else if range_rule && !has_min && !has_max {
        Err(TableError::RangeBoundRequired)
    } else if range_rule && has_min && has_max && min_above_max {
        Err(TableError::RangeMinAboveMax)
    } else if length_rule && trim_spec(length).len() == 0 {
        Err(TableError::LengthColumnRequired)
    } else if length_rule && max_length is None {
        Err(TableError::LengthLimitRequired)
    } else if gap is Some && !has_time_gap_column(t, time) {
        Err(TableError::TimeGapNeedsTimeColumn)
    } else {
        Ok((max_length, gap))
    }
}

/// A typed signed number as read: blank is none, else the number when it is
/// one and above zero.
pub open spec fn optional_positive(s: Seq<char>) -> Option<Option<int>> {
    if trim_spec(s).len() == 0 {
        Some(None)
    } else {
        match parse_int_spec(trim_spec(s)) {
            Some(v) => if v > 0 {
                Some(Some(v))
            } else {
                None
            },
            None => None,
        }
    }
}

/// How a typed count is refused: as not a number, naming the field and the
/// trimmed text, or as not above zero, naming the field.
pub open spec fn count_refusal(e: TableError, label: Seq<char>, s: Seq<char>) -> bool {
    match parse_usize_spec(trim_spec(s)) {
        None => e matches TableError::InvalidNumber(l, v) && l@ == label && v@ == trim_spec(s),
        Some(_) => e matches TableError::NotPositive(l) && l@ == label,
    }
}

/// How a typed signed number is refused (see `count_refusal`).
pub open spec fn positive_refusal(e: TableError, label: Seq<char>, s: Seq<char>) -> bool {
    match parse_int_spec(trim_spec(s)) {
        None => e matches TableError::InvalidNumber(l, v) && l@ == label && v@ == trim_spec(s),
        Some(_) => e matches TableError::NotPositive(l) && l@ == label,
    }
}

/// An optional count as an optional integer.
pub open spec fn count_view(o: Option<usize>) -> Option<int> {
    match o {
        Some(v) => Some(v as int),
        None => None,
    }
}

/// An optional signed number as an optional integer.
pub open spec fn gap_view(o: Option<i64>) -> Option<int> {
    match o {
        Some(v) => Some(v as int),
        None => None,
    }
}

fn has_time_gap_column_exec(table: &DataTable, time_column: &str) -> (r: bool)
    ensures
        r == has_time_gap_column(table@, time_column@),
{
    let t = trim(time_column);
    let blank = t.as_str().is_empty();
    let mut i: usize = 0;
    while i < table.columns.len()
        invariant
            0 <= i <= table@.len(),
            t@ == trim_spec(time_column@),
            blank == (t@.len() == 0),
            table.columns@.len() == table@.len(),
            forall|k: int| 0 <= k < i ==> !time_gap_column(#[trigger] table@[k], time_column@),
        decreases table.columns.len() - i,
    {
        let column = &table.columns[i];
        assert(column@ == table@[i as int]);
        if crate::text::text_eq(column.name.as_str(), t.as_str()) {
            return true;
        }
        if blank {
            if column.logical_type == LogicalType::DateTime {
                return true;
            }
            let mut j: usize = 0;
            while j < column.values.len()
                invariant
                    0 <= i < table@.len(),
                    column@ == table@[i as int],
                    blank,
                    t@ == trim_spec(time_column@),
                    t@.len() == 0,
                    0 <= j <= column@.values.len(),
                    column.values@.len() == column@.values.len(),
                    forall|x: int| 0 <= x < j ==> !(column@.values[x] is Some && parsed_datetime(
                        #[trigger] column@.values[x]->0,
                    ) is Some),
                decreases column.values.len() - j,
            {
                assert(column.values.deep_view()[j as int] == column@.values[j as int]);
                match &column.values[j] {
                    Some(v) => {
                        if looks_like_datetime(v.as_str()) {
                            assert(column@.values[j as int] == Some(v@));
                            assert(column@.values[j as int] is Some && parsed_datetime(column@.values[j as int]->0) is Some);
                            assert(time_gap_column(table@[i as int], time_column@));
                            return true;
                        }
                    },
                    None => {},
                }
                j += 1;
            }
        }
        assert(!time_gap_column(table@[i as int], time_column@));
        i += 1;
    }
    false
}

/// Checks the numeric settings of a quality-rule form (see
/// `rule_limits_outcome`). `has_range_min` and `has_range_max` tell which
/// range bounds were given, `range_min_above_max` whether the given lower
/// bound exceeds the given upper one.
pub fn check_rule_limits(
    table: &DataTable,
    time_column: &str,
    range_column: &str,
    has_range_min: bool,
    has_range_max: bool,
    range_min_above_max: bool,
    length_column: &str,
    max_text_length: &str,
    time_gap_minutes: &str,
) -> (r: Result<(Option<usize>, Option<i64>), TableError>)
    ensures
        match optional_count(max_text_length@) {
            None => r matches Err(e) && count_refusal(e, "最大长度"@, max_text_length@),
            Some(limit) => match optional_positive(time_gap_minutes@) {
                None => r matches Err(e) && positive_refusal(e, "时间间隔"@, time_gap_minutes@),
                Some(gap) => match rule_limits_outcome(
                    table@,
                    time_column@,
                    range_column@,
                    has_range_min,
                    has_range_max,
                    range_min_above_max,
                    length_column@,
                    limit,
                    gap,
                ) {
                    Ok((a, b)) => r matches Ok((x, y)) && count_view(x) == a && gap_view(y) == b,
                    Err(e) => r == Err::<(Option<usize>, Option<i64>), TableError>(e),
                },
            },
        },
{
    let max_length = match parse_optional_usize(max_text_length, "最大长度") {
        Ok(v) => v,
        Err(e) => return Err(e),
    };
    let gap = match parse_optional_i64(time_gap_minutes, "时间间隔") {
        Ok(v) => v,
        Err(e) => return Err(e),
    };
    let range_blank = trim(range_column).as_str().is_empty();
    let length_blank = trim(length_column).as_str().is_empty();
    let range_rule = !range_blank || has_range_min || has_range_max;
    let length_rule = !length_blank || max_length.is_some();
    if range_rule {
        if range_blank {
            return Err(TableError::RangeColumnRequired);
        }
        if !has_range_min && !has_range_max {
            return Err(TableError::RangeBoundRequired);
        }
        if has_range_min && has_range_max && range_min_above_max {
            return Err(TableError::RangeMinAboveMax);
        }
    }
    if length_rule {
        if length_blank {
            return Err(TableError::LengthColumnRequired);
        }
        if max_length.is_none() {
            return Err(TableError::LengthLimitRequired);
        }
    }
    if gap.is_some() && !has_time_gap_column_exec(table, time_column) {
        return Err(TableError::TimeGapNeedsTimeColumn);
    }
    proof {
        crate::number::lemma_parse_usize_range(trim_spec(max_text_length@));
    }
    Ok((max_length, gap))
}

/// "`column` <= `limit`" for a length rule with a column and a limit, else the
/// "not set" word.
pub open spec fn length_rule_text_spec(column: Seq<char>, limit: Option<usize>) -> Seq<char> {
    match limit {
        Some(l) => if trim_spec(column).len() > 0 {
            trim_spec(column) + " <= "@ + decimal_spec(l as nat)
        } else {
            "未设置"@
        },
        None => "未设置"@,
    }
}

/// Describes a length rule (see `length_rule_text_spec`).
pub fn length_rule_text(column: &str, limit: Option<usize>) -> (r: String)
    ensures
        r@ == length_rule_text_spec(column@, limit),
{
    let c = trim(column);
    match limit {
        Some(l) => {
            if c.as_str().is_empty() {
                "未设置".to_owned()
            } else {
                let a = concat(c.as_str(), " <= ");
                let n = usize_to_text(l);
                concat(a.as_str(), n.as_str())
            }
        },
        None => "未设置".to_owned(),
    }
}

/// "`minutes` 分钟" for a positive time gap, else the "not set" word.
pub open spec fn time_gap_rule_text_spec(minutes: Option<i64>) -> Seq<char> {
    match minutes {
        Some(m) => if m > 0 {
            int_text_spec(m as int) + " 分钟"@
        } else {
            "未设置"@
        },
        None => "未设置"@,
    }
}

/// Describes a time-gap rule (see `time_gap_rule_text_spec`).
pub fn time_gap_rule_text(minutes: Option<i64>) -> (r: String)
    ensures
        r@ == time_gap_rule_text_spec(minutes),
{
    match minutes {
        Some(m) => {
            if m > 0 {
                let n = i64_to_text(m);
                concat(n.as_str(), " 分钟")
            } else {
                "未设置".to_owned()
            }
        },
        None => "未设置".to_owned(),
    }
}

} // verus!
