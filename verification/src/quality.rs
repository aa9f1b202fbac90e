//! Data-quality checks: empty and duplicate rows, key duplicates, invalid or
//! mixed values, time-order breaks, and the per-column facts of a profile.

use vstd::prelude::*;
use crate::aggregate::{distinct_count, sample_texts, samples};
use crate::columns::trimmed_cell;
use crate::datetime::{moment_order, parse_datetime_value, parsed_datetime, compare_moments, DateTimeParts};
use crate::inference::{bool_flag, parse_bool};
use crate::inspector::{count_datetime_like, datetime_like_count};
use crate::model::{
    all_found, cell_at, column_position, find_column, find_columns, height_of, names_of, row_at,
    ColumnView, DataTable, LogicalType, TableColumn,
};
use crate::number::{decimal_spec, float_text_ok, float_text_ok_exec, parse_i64, parse_int_spec, usize_to_text};
use crate::model::{row_signature, row_signature_spec};
use crate::rows::{first_of_its_key, first_occurrences, positions_where, row_blank, row_blank_exec};
use crate::text::{concat, contains, contains_text, join_spec, join_texts, text_eq, trim};

verus! {

/// One finding of a quality check.
#[derive(Clone, Debug)]
pub struct QualityIssue {
    pub category: String,
    pub severity: String,
    pub field: String,
    pub detail: String,
}

/// Abstract value of an issue.
pub open spec fn issue_view(i: QualityIssue) -> (Seq<char>, Seq<char>, Seq<char>, Seq<char>) {
    (i.category@, i.severity@, i.field@, i.detail@)
}

/// A cell trimmed, kept only when not empty.
pub fn normalize_cell(value: &Option<String>) -> (r: Option<String>)
    ensures
        r.deep_view() == trimmed_cell(value.deep_view()),
{
    match value {
        Some(s) => crate::cells::non_empty(trim(s.as_str())),
        None => None,
    }
}

/// The trimmed, non-empty cells of a column.
pub fn normalized_values(column: &TableColumn) -> (r: Vec<String>)
    ensures
        r.deep_view() == samples(column@.values),
{
    sample_texts(&column.values)
}

/// Number of rows whose cells are all blank.
pub open spec fn empty_row_count(t: Seq<ColumnView>) -> nat {
    positions_where(height_of(t), |i: int| row_blank(t, i)).len()
}

/// Counts the rows whose cells are all blank.
pub fn detect_fully_empty_rows(table: &DataTable) -> (r: usize)
    ensures
        r == empty_row_count(table@),
{
    let h = table.height();
    let ghost keep = |i: int| row_blank(table@, i);
    let mut n: usize = 0;
    let mut i: usize = 0;
    while i < h
        invariant
            h == height_of(table@),
            keep == (|i: int| row_blank(table@, i)),
            0 <= i <= h,
            n == positions_where(i as nat, keep).len(),
            n <= i,
        decreases h - i,
    {
        let ghost p = positions_where(i as nat, keep);
        if row_blank_exec(table, i) {
            n += 1;
        }
        assert(positions_where((i + 1) as nat, keep) == if keep(i as int) {
            p.push(i)
        } else {
            p
        });
        i += 1;
    }
    n
}

/// A row with each cell trimmed (a blank cell as the empty text).
pub open spec fn normalized_row(row: Seq<Option<Seq<char>>>) -> Seq<Option<Seq<char>>> {
    row.map_values(
        |v: Option<Seq<char>>|
            Some(
                match trimmed_cell(v) {
                    Some(s) => s,
                    None => Seq::empty(),
                },
            ),
    )
}

/// Number of rows whose trimmed signature occurred in an earlier row.
pub open spec fn duplicate_row_count(t: Seq<ColumnView>) -> nat {
    let sigs = Seq::new(height_of(t), |i: int| row_signature_spec(normalized_row(row_at(t, i))));
    positions_where(height_of(t), |i: int| !first_of_its_key(sigs, i)).len()
}

/// Number of positions `i` whose text occurred before `i`.
pub fn repeat_count(keys: &Vec<String>) -> (r: usize)
    ensures
        r == positions_where(keys@.len(), |i: int| !first_of_its_key(keys.deep_view(), i)).len(),
{
    let ghost ks = keys.deep_view();
    let ghost keep = |i: int| !first_of_its_key(ks, i);
    let flags = crate::mergesort::first_occurrence_flags(keys);
    let mut n: usize = 0;
    let mut i: usize = 0;
    while i < keys.len()
        invariant
            ks == keys.deep_view(),
            keep == (|i: int| !first_of_its_key(ks, i)),
            0 <= i <= ks.len(),
            flags@.len() == keys@.len(),
            forall|x: int| 0 <= x < keys@.len() ==> flags@[x] == crate::mergesort::first_of_text(ks, x),
            n == positions_where(i as nat, keep).len(),
            n <= i,
        decreases keys.len() - i,
    {
        assert(crate::mergesort::first_of_text(ks, i as int) == first_of_its_key(ks, i as int));
        let ghost p = positions_where(i as nat, keep);
        if !flags[i] {
            n += 1;
        }
        assert(positions_where((i + 1) as nat, keep) == if keep(i as int) {
            p.push(i)
        } else {
            p
        });
        i += 1;
    }
    n
}

/// Counts the rows that repeat an earlier row once cells are trimmed.
pub fn detect_duplicate_rows(table: &DataTable) -> (r: usize)
    ensures
        r == duplicate_row_count(table@),
{
    let h = table.height();
    let mut sigs: Vec<String> = Vec::new();
    let mut i: usize = 0;
    while i < h
        invariant
            h == height_of(table@),
            0 <= i <= h,
            sigs@.len() == i,
            forall|k: int|
                0 <= k < i ==> #[trigger] sigs@[k]@ == row_signature_spec(
                    normalized_row(row_at(table@, k)),
                ),
        decreases h - i,
    {
        let row = table.row(i);
        let mut cells: Vec<Option<String>> = Vec::new();
        let mut c: usize = 0;
        while c < row.len()
            invariant
                row.deep_view() == row_at(table@, i as int),
                0 <= c <= row@.len(),
                cells@.len() == c,
                forall|k: int|
                    0 <= k < c ==> #[trigger] cells@[k].deep_view() == normalized_row(
                        row.deep_view(),
                    )[k],
            decreases row.len() - c,
        {
            match normalize_cell(&row[c]) {
                Some(s) => cells.push(Some(s)),
                None => cells.push(Some(String::new())),
            }
            c += 1;
        }
        assert(cells.deep_view() =~= normalized_row(row_at(table@, i as int)));
        sigs.push(row_signature(&cells));
        i += 1;
    }
    assert(sigs.deep_view() =~= Seq::new(
        height_of(table@),
        |i: int| row_signature_spec(normalized_row(row_at(table@, i))),
    ));
    repeat_count(&sigs)
}

/// Whether every key cell of row `i` is present and not blank.
pub open spec fn keys_filled(t: Seq<ColumnView>, idx: Seq<usize>, i: int) -> bool {
    forall|k: int| 0 <= k < idx.len() ==> (#[trigger] trimmed_cell(cell_at(t[idx[k] as int], i))) is Some
}

/// The trimmed key cells of row `i` joined with `|`.
pub open spec fn trimmed_key(t: Seq<ColumnView>, idx: Seq<usize>, i: int) -> Seq<char> {
    join_spec(
        Seq::new(idx.len(), |k: int| trimmed_cell(cell_at(t[idx[k] as int], i)).unwrap()),
        "|"@,
    )
}

/// Number of rows with all key cells filled whose trimmed key occurred in an
/// earlier such row; zero when a key column is missing.
pub open spec fn key_duplicate_count(t: Seq<ColumnView>, names: Seq<Seq<char>>) -> nat {
    if !all_found(t, names) {
        0
    } else {
        let idx = crate::model::positions_of(t, names);
        let rows = positions_where(height_of(t), |i: int| keys_filled(t, idx, i));
        let keys = Seq::new(rows.len(), |k: int| trimmed_key(t, idx, rows[k] as int));
        positions_where(rows.len(), |k: int| !first_of_its_key(keys, k)).len()
    }
}

/// Counts rows that repeat an earlier row's trimmed key over the named columns.
pub fn detect_key_duplicates(table: &DataTable, columns: &Vec<String>) -> (r: usize)
    ensures
        r == key_duplicate_count(table@, columns.deep_view()),
{
    let idx = match find_columns(table, columns) {
        Ok(v) => v,
        Err(_) => {
            proof {
                crate::model::lemma_first_unknown(table@, columns.deep_view());
            }
            return 0;
        },
    };
    proof {
        assert forall|k: int| 0 <= k < idx@.len() implies (idx@[k] as int) < table@.len() by {
            crate::model::lemma_column_position(table@, columns.deep_view()[k]);
            assert(column_position(table@, columns.deep_view()[k]) is Some);
        }
    }
    let h = table.height();
    let ghost keep = |i: int| keys_filled(table@, idx@, i);
    let mut keys: Vec<String> = Vec::new();
    let mut i: usize = 0;
    while i < h
        invariant
            h == height_of(table@),
            forall|k: int| 0 <= k < idx@.len() ==> (idx@[k] as int) < table@.len(),
            keep == (|i: int| keys_filled(table@, idx@, i)),
            0 <= i <= h,
            keys@.len() == positions_where(i as nat, keep).len(),
            forall|k: int|
                0 <= k < keys@.len() ==> #[trigger] keys@[k]@ == trimmed_key(
                    table@,
                    idx@,
                    positions_where(i as nat, keep)[k] as int,
                ),
        decreases h - i,
    {
        let ghost p = positions_where(i as nat, keep);
        assert(positions_where((i + 1) as nat, keep) == if keep(i as int) {
            p.push(i)
        } else {
            p
        });
        let mut parts: Vec<String> = Vec::new();
        let mut filled = true;
        let mut k: usize = 0;
        while k < idx.len()
            invariant
                forall|m: int| 0 <= m < idx@.len() ==> (idx@[m] as int) < table@.len(),
                0 <= k <= idx@.len(),
                filled == forall|m: int|
                    0 <= m < k ==> (#[trigger] trimmed_cell(cell_at(table@[idx@[m] as int], i as int))) is Some,
                filled ==> parts@.len() == k,
                filled ==> forall|m: int|
                    0 <= m < k ==> #[trigger] parts@[m]@ == trimmed_cell(
                        cell_at(table@[idx@[m] as int], i as int),
                    ).unwrap(),
            decreases idx.len() - k,
        {
            let column = &table.columns[idx[k]];
            let cell = if i < column.values.len() {
                normalize_cell(&column.values[i])
            } else {
                None
            };
            assert(cell.deep_view() == trimmed_cell(cell_at(table@[idx@[k as int] as int], i as int)));
            match cell {
                Some(s) => {
                    if filled {
                        parts.push(s);
                    }
                },
                None => {
                    filled = false;
                },
            }
            k += 1;
        }
        if filled {
            proof {
                reveal_strlit("|");
            }
            let key = join_texts(&parts, "|");
            assert(parts.deep_view() =~= Seq::new(
                idx@.len(),
                |m: int| trimmed_cell(cell_at(table@[idx@[m] as int], i as int)).unwrap(),
            ));
            keys.push(key);
        }
        i += 1;
    }
    assert(keys.deep_view() =~= Seq::new(
        positions_where(h as nat, keep).len(),
        |k: int| trimmed_key(table@, idx@, positions_where(h as nat, keep)[k] as int),
    ));
    repeat_count(&keys)
}

/// Number of blank cells in the column named `name` (zero without one).
pub open spec fn missing_in_column(t: Seq<ColumnView>, name: Seq<char>) -> nat {
    match column_position(t, name) {
        Some(p) => positions_where(
            t[p].values.len(),
            |i: int| trimmed_cell(t[p].values[i]) is None,
        ).len(),
        None => 0,
    }
}

/// Counts the blank cells of the column named `column_name`.
pub fn count_missing_in_column(table: &DataTable, column_name: &str) -> (r: usize)
    ensures
        r == missing_in_column(table@, column_name@),
{
    let pos = match find_column(table, column_name) {
        Some(p) => p,
        None => return 0,
    };
    proof {
        crate::model::lemma_column_position(table@, column_name@);
    }
    let values = &table.columns[pos].values;
    let ghost v = values.deep_view();
    let ghost keep = |i: int| trimmed_cell(v[i]) is None;
    let mut n: usize = 0;
    let mut i: usize = 0;
    while i < values.len()
        invariant
            v == values.deep_view(),
            v == table@[pos as int].values,
            keep == (|i: int| trimmed_cell(v[i]) is None),
            0 <= i <= v.len(),
            n == positions_where(i as nat, keep).len(),
            n <= i,
        decreases values.len() - i,
    {
        let ghost p = positions_where(i as nat, keep);
        if normalize_cell(&values[i]).is_none() {
            n += 1;
        }
        assert(positions_where((i + 1) as nat, keep) == if keep(i as int) {
            p.push(i)
        } else {
            p
        });
        i += 1;
    }
    n
}

/// Whether a trimmed value fails to read as the column's numeric type.
pub open spec fn numeric_invalid(ty: LogicalType, v: Seq<char>) -> bool {
    match ty {
        LogicalType::Integer => parse_int_spec(v) is None,
        LogicalType::Float => !float_text_ok(v),
        _ => false,
    }
}

/// Number of trimmed cells of a numeric column that do not read as its type.
pub open spec fn invalid_count(c: ColumnView) -> nat {
    let v = samples(c.values);
    positions_where(v.len(), |k: int| numeric_invalid(c.logical_type, v[k])).len()
}

/// The issue raised for a numeric column with unreadable values (none for other
/// columns or when every value reads).
pub open spec fn numeric_issue(c: ColumnView) -> Option<(Seq<char>, Seq<char>, Seq<char>, Seq<char>)> {
    if (c.logical_type == LogicalType::Integer || c.logical_type == LogicalType::Float)
        && invalid_count(c) > 0 {
        Some(
            (
                "类型异常"@,
                "高"@,
                c.name,
                "数值列中检测到 "@ + decimal_spec(invalid_count(c)) + " 个非法字符或不可解析值"@,
            ),
        )
    } else {
        None
    }
}

/// Checks a numeric column for values that do not read as its type.
pub fn detect_numeric_invalid(column: &TableColumn) -> (r: Option<QualityIssue>)
    ensures
        match r {
            Some(i) => numeric_issue(column@) == Some(issue_view(i)),
            None => numeric_issue(column@) is None,
        },
{
    let ty = column.logical_type;
    if !(ty == LogicalType::Integer || ty == LogicalType::Float) {
        return None;
    }
    let v = sample_texts(&column.values);
    let ghost s = v.deep_view();
    let ghost keep = |k: int| numeric_invalid(ty, s[k]);
    let mut n: usize = 0;
    let mut k: usize = 0;
    while k < v.len()
        invariant
            s == v.deep_view(),
            s == samples(column@.values),
            ty == column@.logical_type,
            keep == (|k: int| numeric_invalid(ty, s[k])),
            0 <= k <= s.len(),
            n == positions_where(k as nat, keep).len(),
            n <= k,
        decreases v.len() - k,
    {
        let ghost p = positions_where(k as nat, keep);
        assert(s[k as int] == v@[k as int]@);
        let bad = if ty == LogicalType::Integer {
            parse_i64(v[k].as_str()).is_none()
        } else if ty == LogicalType::Float {
            !float_text_ok_exec(v[k].as_str())
        } else {
            false
        };
        if bad {
            n += 1;
        }
        assert(positions_where((k + 1) as nat, keep) == if keep(k as int) {
            p.push(k)
        } else {
            p
        });
        k += 1;
    }
    if n == 0 {
        return None;
    }
    let count = usize_to_text(n);
    let head = concat("数值列中检测到 ", count.as_str());
    let detail = concat(head.as_str(), " 个非法字符或不可解析值");
    Some(
        QualityIssue {
            category: "类型异常".to_owned(),
            severity: "高".to_owned(),
            field: column.name.clone(),
            detail,
        },
    )
}

/// The semantic kind of a trimmed value: number, boolean, date-time or text.
pub open spec fn value_kind(v: Seq<char>) -> Seq<char> {
    if parse_int_spec(v) is Some || float_text_ok(v) {
        "数值"@
    } else if bool_flag(v) is Some {
        "布尔"@
    } else if parsed_datetime(v) is Some {
        "时间"@
    } else {
        "文本"@
    }
}

/// The semantic kind of a value (see `value_kind`).
pub fn classify_value_kind(value: &str) -> (r: String)
    ensures
        r@ == value_kind(value@),
{
    if parse_i64(value).is_some() || float_text_ok_exec(value) {
        "数值".to_owned()
    } else if parse_bool(value).is_some() {
        "布尔".to_owned()
    } else if crate::datetime::looks_like_datetime(value) {
        "时间".to_owned()
    } else {
        "文本".to_owned()
    }
}

/// The kinds, in text order, that occur among the values.
pub open spec fn kinds_present(v: Seq<Seq<char>>) -> Seq<Seq<char>> {
    let order = seq!["布尔"@, "数值"@, "文本"@, "时间"@];
    let has = |w: Seq<char>| exists|k: int| 0 <= k < v.len() && #[trigger] value_kind(v[k]) == w;
    positions_where(4, |i: int| has(order[i])).map_values(|i: usize| order[i as int])
}

/// The issue raised for a column whose values are of more than one kind.
pub open spec fn mixing_issue(c: ColumnView) -> Option<(Seq<char>, Seq<char>, Seq<char>, Seq<char>)> {
    let v = samples(c.values);
    let kinds = kinds_present(v);
    if v.len() == 0 || kinds.len() <= 1 {
        None
    } else {
        Some(
            (
                "类型混杂"@,
                if c.logical_type == LogicalType::Integer || c.logical_type == LogicalType::Float {
                    "高"@
                } else {
                    "中"@
                },
                c.name,
                "同列出现多种语义类型："@ + join_spec(kinds, " / "@),
            ),
        )
    }
}

/// Checks whether a column's values are of more than one kind.
pub fn detect_type_mixing(column: &TableColumn) -> (r: Option<QualityIssue>)
    ensures
        match r {
            Some(i) => mixing_issue(column@) == Some(issue_view(i)),
            None => mixing_issue(column@) is None,
        },
{
    let v = sample_texts(&column.values);
    let ghost s = v.deep_view();
    let ghost order = seq!["布尔"@, "数值"@, "文本"@, "时间"@];
    let mut seen_bool = false;
    let mut seen_number = false;
    let mut seen_text = false;
    let mut seen_time = false;
    let mut k: usize = 0;
    while k < v.len()
        invariant
            s == v.deep_view(),
            0 <= k <= s.len(),
            seen_bool == exists|m: int| 0 <= m < k && #[trigger] value_kind(s[m]) == "布尔"@,
            seen_number == exists|m: int| 0 <= m < k && #[trigger] value_kind(s[m]) == "数值"@,
            seen_text == exists|m: int| 0 <= m < k && #[trigger] value_kind(s[m]) == "文本"@,
            seen_time == exists|m: int| 0 <= m < k && #[trigger] value_kind(s[m]) == "时间"@,
        decreases v.len() - k,
    {
        assert(s[k as int] == v@[k as int]@);
        let kind = classify_value_kind(v[k].as_str());
        let ghost kv = value_kind(s[k as int]);
        assert(kind@ == kv);
        if text_eq(kind.as_str(), "布尔") {
            seen_bool = true;
        }
        if text_eq(kind.as_str(), "数值") {
            seen_number = true;
        }
        if text_eq(kind.as_str(), "文本") {
            seen_text = true;
        }
        if text_eq(kind.as_str(), "时间") {
            seen_time = true;
        }
        k += 1;
    }
    let mut kinds: Vec<String> = Vec::new();
    if seen_bool {
        kinds.push("布尔".to_owned());
    }
    if seen_number {
        kinds.push("数值".to_owned());
    }
    if seen_text {
        kinds.push("文本".to_owned());
    }
    if seen_time {
        kinds.push("时间".to_owned());
    }
    proof {
        let has = |w: Seq<char>| exists|k: int| 0 <= k < s.len() && #[trigger] value_kind(s[k]) == w;
        let keep = |i: int| has(order[i]);
        let p0 = positions_where(0, keep);
        let p1 = positions_where(1, keep);
        let p2 = positions_where(2, keep);
        let p3 = positions_where(3, keep);
        let p4 = positions_where(4, keep);
        assert(p1 == if keep(0) { p0.push(0) } else { p0 });
        assert(p2 == if keep(1) { p1.push(1) } else { p1 });
        assert(p3 == if keep(2) { p2.push(2) } else { p2 });
        assert(p4 == if keep(3) { p3.push(3) } else { p3 });
        assert(kinds.deep_view() =~= kinds_present(s));
    }
    if v.len() == 0 || kinds.len() <= 1 {
        return None;
    }
    let joined = join_texts(&kinds, " / ");
    let severity = if column.logical_type == LogicalType::Integer || column.logical_type
        == LogicalType::Float {
        "高".to_owned()
    } else {
        "中".to_owned()
    };
    Some(
        QualityIssue {
            category: "类型混杂".to_owned(),
            severity,
            field: column.name.clone(),
            detail: concat("同列出现多种语义类型：", joined.as_str()),
        },
    )
}

/// The moments read (by pattern) from the values, skipping unreadable ones.
pub open spec fn moments_of(v: Seq<Seq<char>>) -> Seq<DateTimeParts>
    decreases v.len(),
{
    if v.len() == 0 {
        Seq::empty()
    } else {
        match parsed_datetime(v.last()) {
            Some(m) => moments_of(v.drop_last()).push(m),
            None => moments_of(v.drop_last()),
        }
    }
}

/// Number of moments earlier than the moment before them.
pub open spec fn descent_count(m: Seq<DateTimeParts>) -> nat {
    positions_where(m.len(), |k: int| k > 0 && moment_order(m[k], m[k - 1]) < 0).len()
}

/// Number of time-order breaks in the column named `name` (zero without one).
pub open spec fn time_order_breaks(t: Seq<ColumnView>, name: Seq<char>) -> nat {
    match column_position(t, name) {
        Some(p) => descent_count(moments_of(samples(t[p].values))),
        None => 0,
    }
}

/// Counts, in the named column, the moments earlier than the moment before them.
pub fn detect_time_order_issues(table: &DataTable, column_name: &str) -> (r: usize)
    ensures
        r == time_order_breaks(table@, column_name@),
{
    let pos = match find_column(table, column_name) {
        Some(p) => p,
        None => return 0,
    };
    proof {
        crate::model::lemma_column_position(table@, column_name@);
    }
    let v = sample_texts(&table.columns[pos].values);
    let ghost s = v.deep_view();
    let mut moments: Vec<DateTimeParts> = Vec::new();
    let mut k: usize = 0;
    while k < v.len()
        invariant
            s == v.deep_view(),
            0 <= k <= s.len(),
            moments@ == moments_of(s.take(k as int)),
        decreases v.len() - k,
    {
        assert(s.take(k + 1).drop_last() =~= s.take(k as int));
        assert(s[k as int] == v@[k as int]@);
        match parse_datetime_value(v[k].as_str()) {
            Some(m) => moments.push(m),
            None => {},
        }
        k += 1;
    }
    assert(s.take(s.len() as int) =~= s);
    let ghost m = moments@;
    let ghost keep = |k: int| k > 0 && moment_order(m[k], m[k - 1]) < 0;
    let mut n: usize = 0;
    let mut j: usize = 0;
    while j < moments.len()
        invariant
            m == moments@,
            keep == (|k: int| k > 0 && moment_order(m[k], m[k - 1]) < 0),
            0 <= j <= m.len(),
            n == positions_where(j as nat, keep).len(),
            n <= j,
        decreases moments.len() - j,
    {
        let ghost p = positions_where(j as nat, keep);
        if j > 0 && compare_moments(&moments[j], &moments[j - 1]) < 0 {
            n += 1;
        }
        assert(positions_where((j + 1) as nat, keep) == if keep(j as int) {
            p.push(j)
        } else {
            p
        });
        j += 1;
    }
    n
}

} // verus!
