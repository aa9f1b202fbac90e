//! The texts a session shows about its datasets: snapshot lines, the lists of
//! datasets that can be joined or fused, and the report of a join.

use vstd::prelude::*;
use crate::number::{decimal_spec, int_text_spec, usize_to_text};
use crate::options::{join_conflict_strategy_label, JoinConflictStrategy, JoinKind};
use crate::text::{concat, join_spec, join_texts};

verus! {

/// One line of the dataset list.
#[derive(Clone, Debug)]
pub struct DatasetSnapshot {
    pub dataset_id: i32,
    pub dataset_name: String,
    pub format: String,
    pub size_label: String,
    pub imported_at: String,
    pub import_duration: String,
    pub sheet_name: String,
    pub overview: String,
    pub key_hint: String,
    pub time_hint: String,
}

/// The resolved column, else the candidates joined by ", ", else the "not
/// recognised" word.
pub open spec fn hint_spec(resolved: Seq<char>, candidates: Seq<Seq<char>>) -> Seq<char> {
    if resolved.len() > 0 {
        resolved
    } else if candidates.len() == 0 {
        "未识别"@
    } else {
        join_spec(candidates, ", "@)
    }
}

/// The key or time hint of a dataset (see `hint_spec`).
pub fn dataset_hint(resolved: &str, candidates: &Vec<String>) -> (r: String)
    ensures
        r@ == hint_spec(resolved@, candidates.deep_view()),
{
    if !resolved.is_empty() {
        resolved.to_owned()
    } else if candidates.len() == 0 {
        "未识别".to_owned()
    } else {
        join_texts(candidates, ", ")
    }
}

/// "`rows` 行 × `columns` 列".
pub open spec fn shape_text(rows: nat, columns: nat) -> Seq<char> {
    decimal_spec(rows) + " 行 × "@ + decimal_spec(columns) + " 列"@
}

/// The size of a table as text (see `shape_text`).
pub fn shape_label(rows: usize, columns: usize) -> (r: String)
    ensures
        r@ == shape_text(rows as nat, columns as nat),
{
    let a = usize_to_text(rows);
    let b = concat(a.as_str(), " 行 × ");
    let c = usize_to_text(columns);
    let d = concat(b.as_str(), c.as_str());
    concat(d.as_str(), " 列")
}

/// Assembles a snapshot line; the overview and the two hints are computed
/// from the counts and the profile's columns.
pub fn dataset_snapshot(
    dataset_id: i32,
    dataset_name: String,
    format: String,
    size_label: String,
    imported_at: String,
    import_duration: String,
    sheet_name: String,
    row_count: usize,
    column_count: usize,
    primary_key: &str,
    key_candidates: &Vec<String>,
    time_column: &str,
    time_candidates: &Vec<String>,
) -> (r: DatasetSnapshot)
    ensures
        r.dataset_id == dataset_id,
        r.dataset_name == dataset_name,
        r.format == format,
        r.size_label == size_label,
        r.imported_at == imported_at,
        r.import_duration == import_duration,
        r.sheet_name == sheet_name,
        r.overview@ == shape_text(row_count as nat, column_count as nat),
        r.key_hint@ == hint_spec(primary_key@, key_candidates.deep_view()),
        r.time_hint@ == hint_spec(time_column@, time_candidates.deep_view()),
{
    DatasetSnapshot {
        dataset_id,
        dataset_name,
        format,
        size_label,
        imported_at,
        import_duration,
        sheet_name,
        overview: shape_label(row_count, column_count),
        key_hint: dataset_hint(primary_key, key_candidates),
        time_hint: dataset_hint(time_column, time_candidates),
    }
}

/// "id=name" for each dataset, joined by " | ", after the prefix; the empty
/// message when there are none.
pub open spec fn options_text(options: Seq<(i32, Seq<char>)>, prefix: Seq<char>, empty_message: Seq<char>) -> Seq<char> {
    if options.len() == 0 {
        empty_message
    } else {
        prefix + join_spec(
            options.map_values(|o: (i32, Seq<char>)| int_text_spec(o.0 as int) + "="@ + o.1),
            " | "@,
        )
    }
}

/// Lists the datasets that can be picked (see `options_text`).
pub fn options_hint(options: &Vec<(i32, String)>, prefix: &str, empty_message: &str) -> (r: String)
    ensures
        r@ == options_text(
            options.deep_view().map_values(|o: (i32, Seq<char>)| (o.0, o.1)),
            prefix@,
            empty_message@,
        ),
{
    let ghost ov = options.deep_view().map_values(|o: (i32, Seq<char>)| (o.0, o.1));
    assert(ov =~= options.deep_view());
    if options.len() == 0 {
        return empty_message.to_owned();
    }
    let mut parts: Vec<String> = Vec::new();
    let mut i: usize = 0;
    while i < options.len()
        invariant
            0 <= i <= options@.len(),
            parts.deep_view() == options.deep_view().take(i as int).map_values(
                |o: (i32, Seq<char>)| int_text_spec(o.0 as int) + "="@ + o.1,
            ),
        decreases options.len() - i,
    {
        let ghost before = parts.deep_view();
        let id = crate::number::i64_to_text(options[i].0 as i64);
        let a = concat(id.as_str(), "=");
        let item = concat(a.as_str(), options[i].1.as_str());
        parts.push(item);
        assert(parts.deep_view() =~= before.push(item@));
        assert(options.deep_view().take(i + 1).map_values(|o: (i32, Seq<char>)| int_text_spec(o.0 as int) + "="@ + o.1)
            =~= options.deep_view().take(i as int).map_values(
            |o: (i32, Seq<char>)| int_text_spec(o.0 as int) + "="@ + o.1,
        ).push(item@));
        i += 1;
    }
    assert(options.deep_view().take(options@.len() as int) =~= options.deep_view());
    let joined = join_texts(&parts, " | ");
    concat(prefix, joined.as_str())
}

/// The name of a join's result: the left name, "_merge_", the right name.
pub fn merged_dataset_name(left: &str, right: &str) -> (r: String)
    ensures
        r@ == left@ + "_merge_"@ + right@,
{
    let a = concat(left, "_merge_");
    concat(a.as_str(), right)
}

/// What a join reports.
#[derive(Clone, Debug)]
pub struct JoinReport {
    pub matched_rows: usize,
    pub unmatched_left: usize,
    pub unmatched_right: usize,
    pub conflict_fields: Vec<String>,
    pub conflict_strategy: String,
    pub data_loss_hint: String,
}

/// What a join of this kind lost, given the unmatched rows on each side.
pub open spec fn loss_hint(kind: JoinKind, unmatched_left: nat, unmatched_right: nat) -> Seq<char> {
    match kind {
        JoinKind::Left => if unmatched_right > 0 {
            "左连接未保留右表未匹配记录 "@ + decimal_spec(unmatched_right) + " 条"@
        } else {
            "左连接未发现右表未匹配记录"@
        },
        JoinKind::Inner => if unmatched_left > 0 || unmatched_right > 0 {
            "内连接丢弃了未匹配记录：左表 "@ + decimal_spec(unmatched_left) + " 条，右表 "@ + decimal_spec(
                unmatched_right,
            ) + " 条"@
        } else {
            "内连接全部记录均成功匹配"@
        },
        JoinKind::Outer => if unmatched_left > 0 || unmatched_right > 0 {
            "外连接已保留未匹配记录，结果中可能出现空值列"@
        } else {
            "外连接未发现未匹配记录"@
        },
    }
}

/// Describes what a join lost (see `loss_hint`).
pub fn data_loss_hint(kind: JoinKind, unmatched_left: usize, unmatched_right: usize) -> (r: String)
    ensures
        r@ == loss_hint(kind, unmatched_left as nat, unmatched_right as nat),
{
    match kind {
        JoinKind::Left => if unmatched_right > 0 {
            let n = usize_to_text(unmatched_right);
            let a = concat("左连接未保留右表未匹配记录 ", n.as_str());
            concat(a.as_str(), " 条")
        } else {
            "左连接未发现右表未匹配记录".to_owned()
        },
        JoinKind::Inner => if unmatched_left > 0 || unmatched_right > 0 {
            let l = usize_to_text(unmatched_left);
            let r = usize_to_text(unmatched_right);
            let a = concat("内连接丢弃了未匹配记录：左表 ", l.as_str());
            let b = concat(a.as_str(), " 条，右表 ");
            let c = concat(b.as_str(), r.as_str());
            concat(c.as_str(), " 条")
        } else {
            "内连接全部记录均成功匹配".to_owned()
        },
        JoinKind::Outer => if unmatched_left > 0 || unmatched_right > 0 {
            "外连接已保留未匹配记录，结果中可能出现空值列".to_owned()
        } else {
            "外连接未发现未匹配记录".to_owned()
        },
    }
}

/// The report of a join from its counts.
pub fn join_report(
    matched_rows: usize,
    unmatched_left: usize,
    unmatched_right: usize,
    conflict_fields: Vec<String>,
    kind: JoinKind,
    strategy: JoinConflictStrategy,
) -> (r: JoinReport)
    ensures
        r.matched_rows == matched_rows,
        r.unmatched_left == unmatched_left,
        r.unmatched_right == unmatched_right,
        r.conflict_fields == conflict_fields,
        r.conflict_strategy@ == join_conflict_strategy_label(strategy),
        r.data_loss_hint@ == loss_hint(kind, unmatched_left as nat, unmatched_right as nat),
{
    JoinReport {
        matched_rows,
        unmatched_left,
        unmatched_right,
        conflict_fields,
        conflict_strategy: strategy.as_str().to_owned(),
        data_loss_hint: data_loss_hint(kind, unmatched_left, unmatched_right),
    }
}

/// What a fusion run reports.
#[derive(Clone, Debug)]
pub struct FusionRunReport {
    pub source_summary: String,
    pub alignment_summary: String,
    pub quality_summary: String,
    pub output_summary: String,
    pub trace_summary: String,
    pub skipped_sources: Vec<String>,
}

} // verus!
