//! The counting part of a dataset profile: per-column facts (filled, missing
//! and distinct cells, a sample value, the column's role) and the table-wide
//! quality findings with their counts.

use vstd::prelude::*;
use crate::aggregate::{distinct_count, sample_texts, samples};
use crate::inspector::{count_datetime_like, datetime_like_count};
use crate::model::{ColumnView, DataTable, LogicalType, TableColumn};
use crate::number::{decimal_spec, usize_to_text};
use crate::quality::{
    count_missing_in_column, detect_duplicate_rows, detect_fully_empty_rows, detect_key_duplicates,
    detect_numeric_invalid, detect_time_order_issues, detect_type_mixing, duplicate_row_count,
    empty_row_count, issue_view, key_duplicate_count, missing_in_column, mixing_issue, numeric_issue,
    time_order_breaks, QualityIssue,
};
use crate::text::{concat, contains, contains_text, join_spec, join_texts, text_eq};

verus! {

/// How many findings of each kind a profile holds.
#[derive(Clone, Copy, Debug, PartialEq, Eq, Structural)]
pub struct QualityOverview {
    pub high_missing_field_count: usize,
    pub fully_empty_row_count: usize,
    pub duplicate_row_count: usize,
    pub primary_key_duplicate_count: usize,
    pub composite_duplicate_count: usize,
    pub primary_key_empty_count: usize,
    pub numeric_invalid_column_count: usize,
    pub mixed_type_column_count: usize,
    pub time_order_issue_count: usize,
    pub range_rule_issue_count: usize,
    pub text_length_issue_count: usize,
    pub time_gap_issue_count: usize,
}

impl QualityOverview {
    /// An overview with no findings.
    pub fn empty() -> (r: QualityOverview)
        ensures
            r == (QualityOverview {
                high_missing_field_count: 0,
                fully_empty_row_count: 0,
                duplicate_row_count: 0,
                primary_key_duplicate_count: 0,
                composite_duplicate_count: 0,
                primary_key_empty_count: 0,
                numeric_invalid_column_count: 0,
                mixed_type_column_count: 0,
                time_order_issue_count: 0,
                range_rule_issue_count: 0,
                text_length_issue_count: 0,
                time_gap_issue_count: 0,
            }),
    {
        QualityOverview {
            high_missing_field_count: 0,
            fully_empty_row_count: 0,
            duplicate_row_count: 0,
            primary_key_duplicate_count: 0,
            composite_duplicate_count: 0,
            primary_key_empty_count: 0,
            numeric_invalid_column_count: 0,
            mixed_type_column_count: 0,
            time_order_issue_count: 0,
            range_rule_issue_count: 0,
            text_length_issue_count: 0,
            time_gap_issue_count: 0,
        }
    }
}

/// The counted facts of one column in a profile.
#[derive(Clone, Debug)]
pub struct ColumnFacts {
    pub name: String,
    pub logical_type: LogicalType,
    pub non_null_count: usize,
    pub missing_count: usize,
    pub unique_count: usize,
    pub sample_value: String,
    pub role_hint: String,
    pub is_key_candidate: bool,
    pub is_time_candidate: bool,
    pub is_numeric: bool,
}

/// Whether a column is numeric.
pub open spec fn numeric_type(t: LogicalType) -> bool {
    t == LogicalType::Integer || t == LogicalType::Float
}

/// A column that could hold a key: every one of `row_count > 0` rows filled,
/// each with a different trimmed value.
pub open spec fn key_candidate(c: ColumnView, row_count: nat) -> bool {
    let s = samples(c.values);
    let missing = if row_count > s.len() { row_count - s.len() } else { 0 };
    row_count > 0 && distinct_count(s) == row_count && missing == 0
}

/// A column that could hold times: typed as date-time, named with "time" or
/// "date", or with present cells that read as date-times numbering at least
/// 70% (rounded down) of its filled cells.
pub open spec fn time_candidate(c: ColumnView) -> bool {
    let s = samples(c.values);
    c.logical_type == LogicalType::DateTime || contains_text(c.name, "time"@) || contains_text(c.name, "date"@)
        || datetime_like_count(c) * 100 / (if s.len() < 1 { 1 } else { s.len() }) >= 70
}

/// The role a column plays in a profile.
pub open spec fn role_of(
    c: ColumnView,
    row_count: nat,
    primary: Seq<char>,
    composite: Seq<Seq<char>>,
    time: Seq<char>,
) -> Seq<char> {
    if c.name == primary {
        "主键"@
    } else if composite.contains(c.name) {
        "组合键"@
    } else if c.name == time {
        "时间序列"@
    } else if key_candidate(c, row_count) {
        "主键候选"@
    } else if time_candidate(c) {
        "时间字段"@
    } else if numeric_type(c.logical_type) {
        "数值字段"@
    } else {
        "普通字段"@
    }
}

/// The facts of a column (see `ColumnFacts`), given the table's row count and
/// the resolved key and time columns.
pub open spec fn facts_hold(
    f: ColumnFacts,
    c: ColumnView,
    row_count: nat,
    primary: Seq<char>,
    composite: Seq<Seq<char>>,
    time: Seq<char>,
) -> bool {
    let s = samples(c.values);
    &&& f.name@ == c.name
    &&& f.logical_type == c.logical_type
    &&& f.non_null_count == s.len()
    &&& f.missing_count == (if row_count > s.len() { row_count - s.len() } else { 0 })
    &&& f.unique_count == distinct_count(s)
    &&& f.sample_value@ == (if s.len() > 0 { s[0] } else { "无示例"@ })
    &&& f.role_hint@ == role_of(c, row_count, primary, composite, time)
    &&& f.is_key_candidate == key_candidate(c, row_count)
    &&& f.is_time_candidate == time_candidate(c)
    &&& f.is_numeric == numeric_type(c.logical_type)
}

fn names_contain(names: &Vec<String>, name: &str) -> (r: bool)
    ensures
        r == names.deep_view().contains(name@),
{
    let mut i: usize = 0;
    while i < names.len()
        invariant
            0 <= i <= names@.len(),
            forall|j: int| 0 <= j < i ==> names.deep_view()[j] != name@,
        decreases names.len() - i,
    {
        if text_eq(names[i].as_str(), name) {
            assert(names.deep_view()[i as int] == name@);
            return true;
        }
        i += 1;
    }
    false
}

/// Counts the facts of one column (see `facts_hold`).
pub fn column_facts(
    column: &TableColumn,
    row_count: usize,
    primary_key: &str,
    composite_keys: &Vec<String>,
    time_column: &str,
) -> (r: ColumnFacts)
    ensures
        facts_hold(r, column@, row_count as nat, primary_key@, composite_keys.deep_view(), time_column@),
{
    let present = sample_texts(&column.values);
    let non_null_count = present.len();
    let missing_count = if row_count > non_null_count {
        row_count - non_null_count
    } else {
        0
    };
    let unique_count = crate::rows::first_occurrences(&present).len();
    proof {
        assert(distinct_count(present.deep_view()) == crate::rows::positions_where(
            present@.len(),
            |i: int| crate::rows::first_of_its_key(present.deep_view(), i),
        ).len());
    }
    let sample_value = if present.len() > 0 {
        present[0].clone()
    } else {
        "无示例".to_owned()
    };
    let is_key_candidate = row_count > 0 && unique_count == row_count && missing_count == 0;
    let matched = count_datetime_like(column);
    let denominator: u128 = if non_null_count < 1 { 1 } else { non_null_count as u128 };
    let is_time_candidate = column.logical_type == LogicalType::DateTime || contains(
        column.name.as_str(),
        "time",
    ) || contains(column.name.as_str(), "date") || (matched as u128) * 100 / denominator >= 70;
    let is_numeric = column.logical_type == LogicalType::Integer || column.logical_type
        == LogicalType::Float;
    let role_hint = if text_eq(column.name.as_str(), primary_key) {
        "主键"
    } else if names_contain(composite_keys, column.name.as_str()) {
        "组合键"
    } else if text_eq(column.name.as_str(), time_column) {
        "时间序列"
    } else if is_key_candidate {
        "主键候选"
    } else if is_time_candidate {
        "时间字段"
    } else if is_numeric {
        "数值字段"
    } else {
        "普通字段"
    };
    ColumnFacts {
        name: column.name.clone(),
        logical_type: column.logical_type,
        non_null_count,
        missing_count,
        unique_count,
        sample_value,
        role_hint: role_hint.to_owned(),
        is_key_candidate,
        is_time_candidate,
        is_numeric,
    }
}

/// Adds a column's invalid-number and mixed-kind findings, counting each.
pub fn record_column_issues(column: &TableColumn, overview: &mut QualityOverview, issues: &mut Vec<QualityIssue>)
    requires
        old(overview).numeric_invalid_column_count < usize::MAX,
        old(overview).mixed_type_column_count < usize::MAX,
    ensures
        final(overview).numeric_invalid_column_count == old(overview).numeric_invalid_column_count + (
        if numeric_issue(column@) is Some {
            1int
        } else {
            0int
        }),
        final(overview).mixed_type_column_count == old(overview).mixed_type_column_count + (if mixing_issue(
            column@,
        ) is Some {
            1int
        } else {
            0int
        }),
        final(overview).high_missing_field_count == old(overview).high_missing_field_count,
        final(overview).fully_empty_row_count == old(overview).fully_empty_row_count,
        final(overview).duplicate_row_count == old(overview).duplicate_row_count,
        final(overview).primary_key_duplicate_count == old(overview).primary_key_duplicate_count,
        final(overview).composite_duplicate_count == old(overview).composite_duplicate_count,
        final(overview).primary_key_empty_count == old(overview).primary_key_empty_count,
        final(overview).time_order_issue_count == old(overview).time_order_issue_count,
        final(overview).range_rule_issue_count == old(overview).range_rule_issue_count,
        final(overview).text_length_issue_count == old(overview).text_length_issue_count,
        final(overview).time_gap_issue_count == old(overview).time_gap_issue_count,
        final(issues)@.map_values(|i: QualityIssue| issue_view(i)) == old(issues)@.map_values(
            |i: QualityIssue| issue_view(i),
        ) + column_issue_views(column@),
{
    let ghost start = issues@.map_values(|i: QualityIssue| issue_view(i));
    if let Some(issue) = detect_numeric_invalid(column) {
        overview.numeric_invalid_column_count = overview.numeric_invalid_column_count + 1;
        issues.push(issue);
    }
    let ghost middle = issues@.map_values(|i: QualityIssue| issue_view(i));
    assert(middle =~= start + match numeric_issue(column@) {
        Some(v) => seq![v],
        None => Seq::empty(),
    });
    if let Some(issue) = detect_type_mixing(column) {
        overview.mixed_type_column_count = overview.mixed_type_column_count + 1;
        issues.push(issue);
    }
    assert(issues@.map_values(|i: QualityIssue| issue_view(i)) =~= start + column_issue_views(column@));
}

/// A column's invalid-number finding, then its mixed-kind finding, where
/// there are any.
pub open spec fn column_issue_views(c: ColumnView) -> Seq<(Seq<char>, Seq<char>, Seq<char>, Seq<char>)> {
    (match numeric_issue(c) {
        Some(v) => seq![v],
        None => Seq::empty(),
    }) + (match mixing_issue(c) {
        Some(v) => seq![v],
        None => Seq::empty(),
    })
}

} // verus!

verus! {

/// One finding as its four texts.
pub type IssueView = (Seq<char>, Seq<char>, Seq<char>, Seq<char>);

/// The finding, when the count is positive.
pub open spec fn counted(n: nat, category: Seq<char>, severity: Seq<char>, field: Seq<char>, detail: Seq<char>) -> Seq<IssueView> {
    if n > 0 {
        seq![(category, severity, field, detail)]
    } else {
        Seq::empty()
    }
}

/// The findings on whole rows: empty rows, then duplicate rows.
pub open spec fn row_issue_views(t: Seq<ColumnView>) -> Seq<IssueView> {
    let e = empty_row_count(t);
    let d = duplicate_row_count(t);
    counted(e, "空记录"@, "中"@, "整表"@, "检测到 "@ + decimal_spec(e) + " 行整行缺失记录"@) + counted(
        d,
        "重复记录"@,
        "中"@,
        "整表"@,
        "检测到 "@ + decimal_spec(d) + " 行完全重复记录"@,
    )
}

/// The findings on keys: blank and repeated primary keys (when a primary key
/// is given), then repeated composite keys (when at least two are given).
pub open spec fn key_issue_views(t: Seq<ColumnView>, primary: Seq<char>, composite: Seq<Seq<char>>) -> Seq<IssueView> {
    let pe = missing_in_column(t, primary);
    let pd = key_duplicate_count(t, seq![primary]);
    let cd = key_duplicate_count(t, composite);
    (if primary.len() > 0 {
        counted(pe, "主键规则"@, "高"@, primary, "主键列存在 "@ + decimal_spec(pe) + " 个空值"@) + counted(
            pd,
            "主键重复"@,
            "高"@,
            primary,
            "按指定主键检测到 "@ + decimal_spec(pd) + " 行重复记录"@,
        )
    } else {
        Seq::empty()
    }) + (if composite.len() >= 2 {
        counted(cd, "组合重复"@, "中"@, join_spec(composite, ", "@), "按组合字段检测到 "@ + decimal_spec(cd) + " 行重复记录"@)
    } else {
        Seq::empty()
    })
}

/// The finding on time order (when a time column is given).
pub open spec fn time_issue_views(t: Seq<ColumnView>, time: Seq<char>) -> Seq<IssueView> {
    let to = time_order_breaks(t, time);
    if time.len() > 0 {
        counted(to, "时间规则"@, "中"@, time, "时间序列中检测到 "@ + decimal_spec(to) + " 处逆序或异常跳变"@)
    } else {
        Seq::empty()
    }
}

/// The table-wide findings, in order: on rows, on keys, on time order.
pub open spec fn table_issue_views(
    t: Seq<ColumnView>,
    primary: Seq<char>,
    composite: Seq<Seq<char>>,
    time: Seq<char>,
) -> Seq<IssueView> {
    row_issue_views(t) + key_issue_views(t, primary, composite) + time_issue_views(t, time)
}

/// The texts of a list of findings.
pub open spec fn views_of(issues: Seq<QualityIssue>) -> Seq<IssueView> {
    issues.map_values(|i: QualityIssue| issue_view(i))
}

/// Adds a finding when the count is positive.
fn push_counted(
    issues: &mut Vec<QualityIssue>,
    n: usize,
    category: &str,
    severity: &str,
    field: &str,
    head: &str,
    tail: &str,
)
    ensures
        views_of(final(issues)@) == views_of(old(issues)@) + counted(
            n as nat,
            category@,
            severity@,
            field@,
            head@ + decimal_spec(n as nat) + tail@,
        ),
{
    let ghost before = views_of(issues@);
    if n > 0 {
        let count = usize_to_text(n);
        let a = concat(head, count.as_str());
        let issue = QualityIssue {
            category: category.to_owned(),
            severity: severity.to_owned(),
            field: field.to_owned(),
            detail: concat(a.as_str(), tail),
        };
        issues.push(issue);
        assert(views_of(issues@) =~= before + seq![(category@, severity@, field@, head@ + decimal_spec(n as nat) + tail@)]);
    } else {
        assert(views_of(issues@) =~= before + Seq::<IssueView>::empty());
    }
}

fn record_row_issues(table: &DataTable, overview: &mut QualityOverview, issues: &mut Vec<QualityIssue>)
    ensures
        ({
            let e = empty_row_count(table@);
            let d = duplicate_row_count(table@);
            &&& *final(overview) == (QualityOverview {
                fully_empty_row_count: if e > 0 { e as usize } else { old(overview).fully_empty_row_count },
                duplicate_row_count: if d > 0 { d as usize } else { old(overview).duplicate_row_count },
                ..*old(overview)
            })
            &&& views_of(final(issues)@) == views_of(old(issues)@) + row_issue_views(table@)
        }),
{
    let ghost start = views_of(issues@);
    let e = detect_fully_empty_rows(table);
    if e > 0 {
        overview.fully_empty_row_count = e;
    }
    push_counted(issues, e, "空记录", "中", "整表", "检测到 ", " 行整行缺失记录");
    let d = detect_duplicate_rows(table);
    if d > 0 {
        overview.duplicate_row_count = d;
    }
    push_counted(issues, d, "重复记录", "中", "整表", "检测到 ", " 行完全重复记录");
    assert(views_of(issues@) =~= start + row_issue_views(table@));
}

fn record_key_issues(
    table: &DataTable,
    primary_key: &str,
    composite_keys: &Vec<String>,
    overview: &mut QualityOverview,
    issues: &mut Vec<QualityIssue>,
)
    ensures
        ({
            let t = table@;
            let pe = missing_in_column(t, primary_key@);
            let pd = key_duplicate_count(t, seq![primary_key@]);
            let cd = key_duplicate_count(t, composite_keys.deep_view());
            &&& *final(overview) == (QualityOverview {
                primary_key_empty_count: if primary_key@.len() > 0 && pe > 0 { pe as usize } else { old(overview).primary_key_empty_count },
                primary_key_duplicate_count: if primary_key@.len() > 0 && pd > 0 { pd as usize } else { old(overview).primary_key_duplicate_count },
                composite_duplicate_count: if composite_keys@.len() >= 2 && cd > 0 { cd as usize } else { old(overview).composite_duplicate_count },
                ..*old(overview)
            })
            &&& views_of(final(issues)@) == views_of(old(issues)@) + key_issue_views(t, primary_key@, composite_keys.deep_view())
        }),
{
    let ghost start = views_of(issues@);
    if !primary_key.is_empty() {
        let pe = count_missing_in_column(table, primary_key);
        if pe > 0 {
            overview.primary_key_empty_count = pe;
        }
        push_counted(issues, pe, "主键规则", "高", primary_key, "主键列存在 ", " 个空值");
        let mut single: Vec<String> = Vec::new();
        single.push(primary_key.to_owned());
        assert(single.deep_view() =~= seq![primary_key@]);
        let pd = detect_key_duplicates(table, &single);
        if pd > 0 {
            overview.primary_key_duplicate_count = pd;
        }
        push_counted(issues, pd, "主键重复", "高", primary_key, "按指定主键检测到 ", " 行重复记录");
    }
    let ghost s3 = views_of(issues@);
    if composite_keys.len() >= 2 {
        let cd = detect_key_duplicates(table, composite_keys);
        if cd > 0 {
            overview.composite_duplicate_count = cd;
        }
        let field = join_texts(composite_keys, ", ");
        push_counted(issues, cd, "组合重复", "中", field.as_str(), "按组合字段检测到 ", " 行重复记录");
    }
    assert(views_of(issues@) =~= start + key_issue_views(table@, primary_key@, composite_keys.deep_view()));
}

fn record_time_issues(table: &DataTable, time_column: &str, overview: &mut QualityOverview, issues: &mut Vec<QualityIssue>)
    ensures
        ({
            let to = time_order_breaks(table@, time_column@);
            &&& *final(overview) == (QualityOverview {
                time_order_issue_count: if time_column@.len() > 0 && to > 0 { to as usize } else { old(overview).time_order_issue_count },
                ..*old(overview)
            })
            &&& views_of(final(issues)@) == views_of(old(issues)@) + time_issue_views(table@, time_column@)
        }),
{
    let ghost start = views_of(issues@);
    if !time_column.is_empty() {
        let to = detect_time_order_issues(table, time_column);
        if to > 0 {
            overview.time_order_issue_count = to;
        }
        push_counted(issues, to, "时间规则", "中", time_column, "时间序列中检测到 ", " 处逆序或异常跳变");
    }
    assert(views_of(issues@) =~= start + time_issue_views(table@, time_column@));
}

/// Adds the table-wide findings (see `table_issue_views`); each kind found
/// sets its count in the overview, and the other counts stay.
pub fn record_table_issues(
    table: &DataTable,
    primary_key: &str,
    composite_keys: &Vec<String>,
    time_column: &str,
    overview: &mut QualityOverview,
    issues: &mut Vec<QualityIssue>,
)
    ensures
        ({
            let t = table@;
            let e = empty_row_count(t);
            let d = duplicate_row_count(t);
            let pe = missing_in_column(t, primary_key@);
            let pd = key_duplicate_count(t, seq![primary_key@]);
            let cd = key_duplicate_count(t, composite_keys.deep_view());
            let to = time_order_breaks(t, time_column@);
            &&& *final(overview) == (QualityOverview {
                fully_empty_row_count: if e > 0 { e as usize } else { old(overview).fully_empty_row_count },
                duplicate_row_count: if d > 0 { d as usize } else { old(overview).duplicate_row_count },
                primary_key_empty_count: if primary_key@.len() > 0 && pe > 0 { pe as usize } else { old(overview).primary_key_empty_count },
                primary_key_duplicate_count: if primary_key@.len() > 0 && pd > 0 { pd as usize } else { old(overview).primary_key_duplicate_count },
                composite_duplicate_count: if composite_keys@.len() >= 2 && cd > 0 { cd as usize } else { old(overview).composite_duplicate_count },
                time_order_issue_count: if time_column@.len() > 0 && to > 0 { to as usize } else { old(overview).time_order_issue_count },
                ..*old(overview)
            })
            &&& views_of(final(issues)@) == views_of(old(issues)@) + table_issue_views(
                t,
                primary_key@,
                composite_keys.deep_view(),
                time_column@,
            )
        }),
{
    let ghost start = views_of(issues@);
    record_row_issues(table, overview, issues);
    let ghost a = views_of(issues@);
    record_key_issues(table, primary_key, composite_keys, overview, issues);
    let ghost b = views_of(issues@);
    record_time_issues(table, time_column, overview, issues);
    assert(views_of(issues@) =~= start + table_issue_views(table@, primary_key@, composite_keys.deep_view(), time_column@));
}

} // verus!
