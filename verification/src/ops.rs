//! The pipeline's table operations as values: what each one is called, how it
//! is described, and applying one to a table.

use vstd::prelude::*;
use crate::aggregate::{fill_null_statistic, group_aggregate, group_outcome, statistic_outcome};
use crate::cells::EditView;
use crate::columns::{
    add_text_affix, backward_fill_outcome, case_edit, cast_column, cast_outcome,
    convert_integer_to_float, convert_string_to_datetime, convert_timestamp_to_datetime,
    convert_to_boolean, edit_outcome, empty_string_to_null, extract_text_after,
    extract_text_before, fill_null_backward, fill_null_forward, fill_null_text,
    forward_fill_outcome, keep_digits_only, normalize_datetime_format, pattern_outcome,
    remove_text_pattern, replace_exact_outcome, replace_exact_value, replace_text,
    squeeze_text_whitespace, transform_text_case, trim_text_values, trimmed_table,
    truncate_outcome, truncate_text,
};
use crate::error::TableError;
use crate::model::{find_column, height_of, lemma_column_position, logical_type_label, ColumnView, DataTable, LogicalType};
use crate::number::{decimal_spec, i64_to_text, int_text_spec, usize_to_text};
use crate::options::{
    adjacent_compare_mode_label, aggregate_function_label, compare_operator_label,
    priority_placement_label, statistic_fill_strategy_label, text_case_mode_label,
    time_diff_unit_label, AdjacentCompareMode, AggregateFunction, CompareOperator,
    PriorityPlacement, StatisticFillStrategy, TextCaseMode, TimeDiffUnit,
};
use crate::rows::{
    deduplicate_by_columns, deduplicate_rows, dedup_by_columns_outcome, distinct_rows,
    drop_empty_rows, drop_row_range, drop_row_range_outcome, drop_rows_not_contains,
    drop_rows_with_missing, filter_rows_contains, keep_row_range, keep_row_range_outcome,
    keep_rows_with_missing, keep_top_rows, keep_top_rows_outcome, keyword_outcome,
    missing_outcome, nonblank_rows, sample_rows, sample_rows_outcome,
};
use crate::schema::{
    add_column_name_affix, add_row_number_column, affix_outcome, apply_mappings, drop_columns,
    drop_empty_columns, duplicate_column, duplicate_outcome, filter_outcome, keep_columns,
    listed_outcome, mapped, merge_columns, merge_outcome, normalize_column_names,
    normalized_names, rename_column, rename_outcome, reorder_columns, reorder_outcome,
    row_number_outcome, with_content,
};
use crate::steps::{
    add_conditional_column, add_constant_column, add_rank_column, check_expression_column,
    check_ordered_step, check_time_diff_column, concat_columns, keys_reach_table, concat_outcome,
    conditional_outcome, constant_outcome, expression_outcome, keys_reach, multi_sort,
    multi_sort_outcome, ordered_step_outcome, priority_outcome, priority_sort, rank_outcome,
    time_diff_outcome,
};
use crate::text::{join_spec, join_texts};
use crate::timecols::{
    date_column, datetime_sort_outcome, derived_outcome, extract_date_to_column,
    extract_day_to_column, extract_hour_to_column, extract_month_to_column,
    extract_year_to_column, filter_rows_by_time_window, part_column, shift_datetime_by_minutes,
    shift_outcome, sort_by_column, sort_by_datetime, sort_column_ok, sort_outcome,
    split_datetime_parts, split_outcome, window_outcome, DatePart,
};

verus! {

/// One step of a cleaning pipeline. (Steps that scale, shift or clamp numbers
/// carry floating-point values and are not represented here.)
#[derive(Clone, Debug)]
pub enum PipelineOperation {
    Reinspect,
    NormalizeColumnNames,
    TrimTextValues,
    DropEmptyRows,
    DeduplicateRows,
    FilterRowsContains {
        column: String,
        keyword: String,
    },
    KeepRowRange {
        start: usize,
        end: usize,
    },
    KeepTopRows {
        count: usize,
    },
    SampleRows {
        count: usize,
    },
    KeepRowsWithMissing {
        columns: Vec<String>,
    },
    DropRowsWithMissing {
        columns: Vec<String>,
    },
    DropRowsNotContains {
        column: String,
        keyword: String,
    },
    DropRowRange {
        start: usize,
        end: usize,
    },
    DeduplicateByColumns {
        columns: Vec<String>,
    },
    RenameColumn {
        from: String,
        to: String,
    },
    KeepColumns {
        columns: Vec<String>,
    },
    DropColumns {
        columns: Vec<String>,
    },
    DropEmptyColumns,
    ReorderColumns {
        columns: Vec<String>,
    },
    AddColumnNameAffix {
        prefix: String,
        suffix: String,
    },
    DuplicateColumn {
        source: String,
        target: String,
    },
    MergeColumns {
        columns: Vec<String>,
        target: String,
        separator: String,
    },
    AddRowNumberColumn {
        column: String,
        start: usize,
    },
    AddConstantColumn {
        target: String,
        value: String,
    },
    AddExpressionColumn {
        target: String,
        expression: String,
    },
    AddConditionalColumn {
        target: String,
        source_column: String,
        operator: CompareOperator,
        compare_value: String,
        true_value: String,
        false_value: String,
    },
    ConcatColumns {
        columns: Vec<String>,
        target: String,
        separator: String,
    },
    AddTimeDiffColumn {
        start_column: String,
        end_column: String,
        target: String,
        unit: TimeDiffUnit,
    },
    SortBy {
        column: String,
        ascending: bool,
    },
    MultiSort {
        columns: Vec<String>,
        ascending: Vec<bool>,
    },
    PrioritySort {
        column: String,
        operator: CompareOperator,
        value: String,
        placement: PriorityPlacement,
        secondary_columns: Vec<String>,
        secondary_ascending: Vec<bool>,
    },
    AddRankColumn {
        target: String,
        columns: Vec<String>,
        ascending: Vec<bool>,
    },
    FillNullText {
        column: String,
        value: String,
    },
    FillNullForward {
        column: String,
    },
    FillNullBackward {
        column: String,
    },
    FillNullStatistic {
        column: String,
        strategy: StatisticFillStrategy,
    },
    EmptyStringToNull {
        column: String,
    },
    ZeroToNull {
        column: String,
    },
    ReplaceExactValue {
        column: String,
        from: String,
        to: String,
    },
    ConvertStringToNumeric {
        column: String,
    },
    ConvertStringToDateTime {
        column: String,
    },
    ConvertIntegerToFloat {
        column: String,
    },
    ConvertToBoolean {
        column: String,
    },
    CastColumn {
        column: String,
        target: LogicalType,
    },
    TransformTextCase {
        column: String,
        mode: TextCaseMode,
    },
    ReplaceText {
        column: String,
        from: String,
        to: String,
    },
    SqueezeTextWhitespace {
        column: String,
    },
    RemoveTextPattern {
        column: String,
        pattern: String,
    },
    ExtractTextBefore {
        column: String,
        delimiter: String,
    },
    ExtractTextAfter {
        column: String,
        delimiter: String,
    },
    KeepDigitsOnly {
        column: String,
    },
    AddTextAffix {
        column: String,
        prefix: String,
        suffix: String,
    },
    TruncateText {
        column: String,
        max_chars: usize,
    },
    RoundNumeric {
        column: String,
        digits: usize,
    },
    NormalizeDateTimeFormat {
        column: String,
    },
    TimestampToDateTime {
        column: String,
    },
    ShiftDateTimeByMinutes {
        column: String,
        minutes: i64,
    },
    SplitDateTimeParts {
        column: String,
        prefix: String,
    },
    ExtractDateToColumn {
        column: String,
        target: String,
    },
    ExtractYearToColumn {
        column: String,
        target: String,
    },
    ExtractMonthToColumn {
        column: String,
        target: String,
    },
    ExtractDayToColumn {
        column: String,
        target: String,
    },
    ExtractHourToColumn {
        column: String,
        target: String,
    },
    FilterRowsByTimeWindow {
        column: String,
        start: String,
        end: String,
    },
    SortByDateTime {
        column: String,
        ascending: bool,
    },
    GroupAggregate {
        group_columns: Vec<String>,
        target_column: String,
        function: AggregateFunction,
    },
    RollingAggregate {
        group_columns: Vec<String>,
        order_column: String,
        target_column: String,
        window_size: usize,
        function: AggregateFunction,
        output_column: String,
    },
    CumulativeSum {
        group_columns: Vec<String>,
        order_column: String,
        target_column: String,
        output_column: String,
    },
    MovingAverage {
        group_columns: Vec<String>,
        order_column: String,
        target_column: String,
        window_size: usize,
        output_column: String,
    },
    CompareAdjacent {
        group_columns: Vec<String>,
        order_column: String,
        target_column: String,
        mode: AdjacentCompareMode,
        output_column: String,
    },
    ApplyMappings {
        mappings: Vec<(String, String)>,
    },
}

/// The word for a sort direction.
pub open spec fn direction_text(ascending: bool) -> Seq<char> {
    if ascending {
        "升序"@
    } else {
        "降序"@
    }
}

fn direction_word(ascending: bool) -> (r: &'static str)
    ensures
        r@ == direction_text(ascending),
{
    if ascending {
        "升序"
    } else {
        "降序"
    }
}

/// Appends text.
fn append(out: &mut String, text: &str)
    ensures
        final(out)@ == old(out)@ + text@,
{
    *out = crate::text::concat(out.as_str(), text);
}

/// One sort key of a multi-column sort: the column and its direction (ascending
/// when no direction is given).
pub open spec fn sort_key_text(columns: Seq<Seq<char>>, ascending: Seq<bool>, i: int) -> Seq<char> {
    columns[i] + " "@ + direction_text(if i < ascending.len() {
        ascending[i]
    } else {
        true
    })
}

fn sort_keys_text(columns: &Vec<String>, ascending: &Vec<bool>) -> (r: String)
    ensures
        r@ == join_spec(
            Seq::new(columns@.len(), |i: int| sort_key_text(columns.deep_view(), ascending@, i)),
            ", "@,
        ),
{
    let mut parts: Vec<String> = Vec::new();
    let mut i: usize = 0;
    while i < columns.len()
        invariant
            0 <= i <= columns@.len(),
            parts@.len() == i,
            forall|k: int|
                0 <= k < i ==> #[trigger] parts@[k]@ == sort_key_text(columns.deep_view(), ascending@, k),
        decreases columns.len() - i,
    {
        let asc = if i < ascending.len() {
            ascending[i]
        } else {
            true
        };
        let mut piece = columns[i].clone();
        append(&mut piece, " ");
        append(&mut piece, direction_word(asc));
        parts.push(piece);
        i += 1;
    }
    assert(parts.deep_view() =~= Seq::new(
        columns@.len(),
        |i: int| sort_key_text(columns.deep_view(), ascending@, i),
    ));
    join_texts(&parts, ", ")
}

/// The description of a step.
pub open spec fn description(op: PipelineOperation) -> Seq<char> {
    match op {
        PipelineOperation::Reinspect => "重新分析"@,
        PipelineOperation::NormalizeColumnNames => "列名标准化"@,
        PipelineOperation::TrimTextValues => "文本去空白"@,
        PipelineOperation::DropEmptyRows => "删除空行"@,
        PipelineOperation::DeduplicateRows => "整表去重"@,
        PipelineOperation::FilterRowsContains { column, keyword } => "按列筛选 "@ + column@ + " 包含 "@ + keyword@,
        PipelineOperation::KeepRowRange { start, end } => "保留行范围 "@ + decimal_spec(start as nat) + "-"@ + decimal_spec(end as nat),
        PipelineOperation::KeepTopRows { count } => "保留前 "@ + decimal_spec(count as nat) + " 行"@,
        PipelineOperation::SampleRows { count } => "抽样 "@ + decimal_spec(count as nat) + " 行"@,
        PipelineOperation::KeepRowsWithMissing { columns } => if columns@.len() == 0 {
            "保留含缺失值记录"@
        } else {
            "保留缺失记录 "@ + join_spec(columns.deep_view(), ", "@)
        },
        PipelineOperation::DropRowsWithMissing { columns } => if columns@.len() == 0 {
            "删除含缺失值记录"@
        } else {
            "删除缺失记录 "@ + join_spec(columns.deep_view(), ", "@)
        },
        PipelineOperation::DropRowsNotContains { column, keyword } => "删除 "@ + column@ + " 不包含 "@ + keyword@,
        PipelineOperation::DropRowRange { start, end } => "删除行范围 "@ + decimal_spec(start as nat) + "-"@ + decimal_spec(end as nat),
        PipelineOperation::DeduplicateByColumns { columns } => "按列去重 "@ + join_spec(columns.deep_view(), ", "@),
        PipelineOperation::RenameColumn { from, to } => "列重命名 "@ + from@ + " -> "@ + to@,
        PipelineOperation::KeepColumns { columns } => "保留列 "@ + join_spec(columns.deep_view(), ", "@),
        PipelineOperation::DropColumns { columns } => "删除列 "@ + join_spec(columns.deep_view(), ", "@),
        PipelineOperation::DropEmptyColumns => "删除空列"@,
        PipelineOperation::ReorderColumns { columns } => "调整列顺序 "@ + join_spec(columns.deep_view(), ", "@),
        PipelineOperation::AddColumnNameAffix { prefix, suffix } => "批量修改列名前后缀 "@ + prefix@ + ".."@ + suffix@,
        PipelineOperation::DuplicateColumn { source, target } => "复制列 "@ + source@ + " -> "@ + target@,
        PipelineOperation::MergeColumns { columns, target, separator } => "合并列 "@ + join_spec(columns.deep_view(), ", "@) + " -> "@ + target@,
        PipelineOperation::AddRowNumberColumn { column, start } => "新增序号列 "@ + column@ + " 从 "@ + decimal_spec(start as nat),
        PipelineOperation::AddConstantColumn { target, value } => "常量列 "@ + target@ + " = "@ + value@,
        PipelineOperation::AddExpressionColumn { target, expression } => "表达式列 "@ + target@ + " = "@ + expression@,
        PipelineOperation::AddConditionalColumn { target, source_column, operator, compare_value, true_value, false_value } => "条件判断列 "@ + target@ + ": "@ + source_column@ + " "@ + compare_operator_label(operator) + " "@ + compare_value@,
        PipelineOperation::ConcatColumns { columns, target, separator } => "拼接列 "@ + join_spec(columns.deep_view(), ", "@) + " -> "@ + target@,
        PipelineOperation::AddTimeDiffColumn { start_column, end_column, target, unit } => "时间差列 "@ + target@ + " = "@ + end_column@ + " - "@ + start_column@ + " ("@ + time_diff_unit_label(unit) + ")"@,
        PipelineOperation::SortBy { column, ascending } => "按列排序 "@ + column@ + " "@ + direction_text(ascending),
        PipelineOperation::MultiSort { columns, ascending } => "多列排序 "@ + join_spec(
            Seq::new(columns@.len(), |i: int| sort_key_text(columns.deep_view(), ascending@, i)),
            ", "@,
        ),
        PipelineOperation::PrioritySort { column, operator, value, placement, secondary_columns, secondary_ascending } => "条件优先排序 "@ + column@ + " "@ + compare_operator_label(operator) + " "@ + value@ + " ("@ + priority_placement_label(placement) + ")"@,
        PipelineOperation::AddRankColumn { target, columns, ascending } => "生成排名列 "@ + target@ + " by "@ + join_spec(columns.deep_view(), ", "@),
        PipelineOperation::FillNullText { column, value } => "默认值填充 "@ + column@ + " = "@ + value@,
        PipelineOperation::FillNullForward { column } => "前值填充 "@ + column@,
        PipelineOperation::FillNullBackward { column } => "后值填充 "@ + column@,
        PipelineOperation::FillNullStatistic { column, strategy } => "统计值填充 "@ + column@ + " -> "@ + statistic_fill_strategy_label(strategy),
        PipelineOperation::EmptyStringToNull { column } => "空字符串转空值 "@ + column@,
        PipelineOperation::ZeroToNull { column } => "零值转空值 "@ + column@,
        PipelineOperation::ReplaceExactValue { column, from, to } => "指定值替换 "@ + column@ + ": "@ + from@ + " -> "@ + to@,
        PipelineOperation::ConvertStringToNumeric { column } => "字符串转数值 "@ + column@,
        PipelineOperation::ConvertStringToDateTime { column } => "字符串转日期 "@ + column@,
        PipelineOperation::ConvertIntegerToFloat { column } => "整型转浮点 "@ + column@,
        PipelineOperation::ConvertToBoolean { column } => "布尔值转换 "@ + column@,
        PipelineOperation::CastColumn { column, target } => "类型转换 "@ + column@ + " -> "@ + logical_type_label(target),
        PipelineOperation::TransformTextCase { column, mode } => "文本大小写统一 "@ + column@ + " -> "@ + text_case_mode_label(mode),
        PipelineOperation::ReplaceText { column, from, to } => "文本替换 "@ + column@ + ": "@ + from@ + " -> "@ + to@,
        PipelineOperation::SqueezeTextWhitespace { column } => "压缩空白 "@ + column@,
        PipelineOperation::RemoveTextPattern { column, pattern } => "移除字符 "@ + column@ + ": "@ + pattern@,
        PipelineOperation::ExtractTextBefore { column, delimiter } => "提取分隔符左侧 "@ + column@ + " @ "@ + delimiter@,
        PipelineOperation::ExtractTextAfter { column, delimiter } => "提取分隔符右侧 "@ + column@ + " @ "@ + delimiter@,
        PipelineOperation::KeepDigitsOnly { column } => "仅保留数字 "@ + column@,
        PipelineOperation::AddTextAffix { column, prefix, suffix } => "添加前后缀 "@ + column@ + ": "@ + prefix@ + ".."@ + suffix@,
        PipelineOperation::TruncateText { column, max_chars } => "文本截断 "@ + column@ + " -> "@ + decimal_spec(max_chars as nat) + " 字符"@,
        PipelineOperation::RoundNumeric { column, digits } => "数值保留小数 "@ + column@ + " -> "@ + decimal_spec(digits as nat) + " 位"@,
        PipelineOperation::NormalizeDateTimeFormat { column } => "时间格式标准化 "@ + column@,
        PipelineOperation::TimestampToDateTime { column } => "时间戳转换 "@ + column@,
        PipelineOperation::ShiftDateTimeByMinutes { column, minutes } => "时间偏移 "@ + column@ + " "@ + int_text_spec(minutes as int) + " 分钟"@,
        PipelineOperation::SplitDateTimeParts { column, prefix } => "日期拆分 "@ + column@ + " -> "@ + prefix@,
        PipelineOperation::ExtractDateToColumn { column, target } => "提取日期 "@ + column@ + " -> "@ + target@,
        PipelineOperation::ExtractYearToColumn { column, target } => "提取年 "@ + column@ + " -> "@ + target@,
        PipelineOperation::ExtractMonthToColumn { column, target } => "提取月 "@ + column@ + " -> "@ + target@,
        PipelineOperation::ExtractDayToColumn { column, target } => "提取日 "@ + column@ + " -> "@ + target@,
        PipelineOperation::ExtractHourToColumn { column, target } => "提取小时 "@ + column@ + " -> "@ + target@,
        PipelineOperation::FilterRowsByTimeWindow { column, start, end } => "时间窗口筛选 "@ + column@ + " ["@ + start@ + " , "@ + end@ + "]"@,
        PipelineOperation::SortByDateTime { column, ascending } => "时间排序 "@ + column@ + " "@ + direction_text(ascending),
        PipelineOperation::GroupAggregate { group_columns, target_column, function } => if function == AggregateFunction::Count {
            "分组聚合 "@ + join_spec(group_columns.deep_view(), ", "@) + " -> "@ + aggregate_function_label(function)
        } else {
            "分组聚合 "@ + join_spec(group_columns.deep_view(), ", "@) + " / "@ + target_column@ + " -> "@
                + aggregate_function_label(function)
        },
        PipelineOperation::RollingAggregate { group_columns, order_column, target_column, window_size, function, output_column } => "滚动统计 "@ + target_column@ + " by "@ + order_column@ + " -> "@ + output_column@ + " (窗口 "@ + decimal_spec(window_size as nat) + ", "@ + aggregate_function_label(function) + ")"@,
        PipelineOperation::CumulativeSum { group_columns, order_column, target_column, output_column } => "累积和 "@ + target_column@ + " by "@ + order_column@ + " -> "@ + output_column@,
        PipelineOperation::MovingAverage { group_columns, order_column, target_column, window_size, output_column } => "滑动平均 "@ + target_column@ + " by "@ + order_column@ + " -> "@ + output_column@ + " (窗口 "@ + decimal_spec(window_size as nat) + ")"@,
        PipelineOperation::CompareAdjacent { group_columns, order_column, target_column, mode, output_column } => "邻近值比较 "@ + target_column@ + " by "@ + order_column@ + " -> "@ + output_column@ + " ("@ + adjacent_compare_mode_label(mode) + ")"@,
        PipelineOperation::ApplyMappings { mappings } => "应用推荐映射 "@ + decimal_spec(mappings@.len()) + " 项"@,
    }
}

impl PipelineOperation {
    /// Describes the step in one line.
    pub fn describe(&self) -> (r: String)
        ensures
            r@ == description(*self),
    {
        match self {
            PipelineOperation::Reinspect => {
                let mut out = "重新分析".to_owned();
                out
            },
            PipelineOperation::NormalizeColumnNames => {
                let mut out = "列名标准化".to_owned();
                out
            },
            PipelineOperation::TrimTextValues => {
                let mut out = "文本去空白".to_owned();
                out
            },
            PipelineOperation::DropEmptyRows => {
                let mut out = "删除空行".to_owned();
                out
            },
            PipelineOperation::DeduplicateRows => {
                let mut out = "整表去重".to_owned();
                out
            },
            PipelineOperation::FilterRowsContains { column, keyword } => {
                let mut out = "按列筛选 ".to_owned();
                append(&mut out, column.as_str());
                append(&mut out, " 包含 ");
                append(&mut out, keyword.as_str());
                out
            },
            PipelineOperation::KeepRowRange { start, end } => {
                let mut out = "保留行范围 ".to_owned();
                append(&mut out, usize_to_text(*start).as_str());
                append(&mut out, "-");
                append(&mut out, usize_to_text(*end).as_str());
                out
            },
            PipelineOperation::KeepTopRows { count } => {
                let mut out = "保留前 ".to_owned();
                append(&mut out, usize_to_text(*count).as_str());
                append(&mut out, " 行");
                out
            },
            PipelineOperation::SampleRows { count } => {
                let mut out = "抽样 ".to_owned();
                append(&mut out, usize_to_text(*count).as_str());
                append(&mut out, " 行");
                out
            },
            PipelineOperation::KeepRowsWithMissing { columns } => {
                if columns.len() == 0 {
                    "保留含缺失值记录".to_owned()
                } else {
                    let mut out = "保留缺失记录 ".to_owned();
                    append(&mut out, join_texts(columns, ", ").as_str());
                    out
                }
            },
            PipelineOperation::DropRowsWithMissing { columns } => {
                if columns.len() == 0 {
                    "删除含缺失值记录".to_owned()
                } else {
                    let mut out = "删除缺失记录 ".to_owned();
                    append(&mut out, join_texts(columns, ", ").as_str());
                    out
                }
            },
            PipelineOperation::DropRowsNotContains { column, keyword } => {
                let mut out = "删除 ".to_owned();
                append(&mut out, column.as_str());
                append(&mut out, " 不包含 ");
                append(&mut out, keyword.as_str());
                out
            },
            PipelineOperation::DropRowRange { start, end } => {
                let mut out = "删除行范围 ".to_owned();
                append(&mut out, usize_to_text(*start).as_str());
                append(&mut out, "-");
                append(&mut out, usize_to_text(*end).as_str());
                out
            },
            PipelineOperation::DeduplicateByColumns { columns } => {
                let mut out = "按列去重 ".to_owned();
                append(&mut out, join_texts(columns, ", ").as_str());
                out
            },
            PipelineOperation::RenameColumn { from, to } => {
                let mut out = "列重命名 ".to_owned();
                append(&mut out, from.as_str());
                append(&mut out, " -> ");
                append(&mut out, to.as_str());
                out
            },
            PipelineOperation::KeepColumns { columns } => {
                let mut out = "保留列 ".to_owned();
                append(&mut out, join_texts(columns, ", ").as_str());
                out
            },
            PipelineOperation::DropColumns { columns } => {
                let mut out = "删除列 ".to_owned();
                append(&mut out, join_texts(columns, ", ").as_str());
                out
            },
            PipelineOperation::DropEmptyColumns => {
                let mut out = "删除空列".to_owned();
                out
            },
            PipelineOperation::ReorderColumns { columns } => {
                let mut out = "调整列顺序 ".to_owned();
                append(&mut out, join_texts(columns, ", ").as_str());
                out
            },
            PipelineOperation::AddColumnNameAffix { prefix, suffix } => {
                let mut out = "批量修改列名前后缀 ".to_owned();
                append(&mut out, prefix.as_str());
                append(&mut out, "..");
                append(&mut out, suffix.as_str());
                out
            },
            PipelineOperation::DuplicateColumn { source, target } => {
                let mut out = "复制列 ".to_owned();
                append(&mut out, source.as_str());
                append(&mut out, " -> ");
                append(&mut out, target.as_str());
                out
            },
            PipelineOperation::MergeColumns { columns, target, separator } => {
                let mut out = "合并列 ".to_owned();
                append(&mut out, join_texts(columns, ", ").as_str());
                append(&mut out, " -> ");
                append(&mut out, target.as_str());
                out
            },
            PipelineOperation::AddRowNumberColumn { column, start } => {
                let mut out = "新增序号列 ".to_owned();
                append(&mut out, column.as_str());
                append(&mut out, " 从 ");
                append(&mut out, usize_to_text(*start).as_str());
                out
            },
            PipelineOperation::AddConstantColumn { target, value } => {
                let mut out = "常量列 ".to_owned();
                append(&mut out, target.as_str());
                append(&mut out, " = ");
                append(&mut out, value.as_str());
                out
            },
            PipelineOperation::AddExpressionColumn { target, expression } => {
                let mut out = "表达式列 ".to_owned();
                append(&mut out, target.as_str());
                append(&mut out, " = ");
                append(&mut out, expression.as_str());
                out
            },
            PipelineOperation::AddConditionalColumn { target, source_column, operator, compare_value, true_value, false_value } => {
                let mut out = "条件判断列 ".to_owned();
                append(&mut out, target.as_str());
                append(&mut out, ": ");
                append(&mut out, source_column.as_str());
                append(&mut out, " ");
                append(&mut out, operator.as_str());
                append(&mut out, " ");
                append(&mut out, compare_value.as_str());
                out
            },
            PipelineOperation::ConcatColumns { columns, target, separator } => {
                let mut out = "拼接列 ".to_owned();
                append(&mut out, join_texts(columns, ", ").as_str());
                append(&mut out, " -> ");
                append(&mut out, target.as_str());
                out
            },
            PipelineOperation::AddTimeDiffColumn { start_column, end_column, target, unit } => {
                let mut out = "时间差列 ".to_owned();
                append(&mut out, target.as_str());
                append(&mut out, " = ");
                append(&mut out, end_column.as_str());
                append(&mut out, " - ");
                append(&mut out, start_column.as_str());
                append(&mut out, " (");
                append(&mut out, unit.as_str());
                append(&mut out, ")");
                out
            },
            PipelineOperation::SortBy { column, ascending } => {
                let mut out = "按列排序 ".to_owned();
                append(&mut out, column.as_str());
                append(&mut out, " ");
                append(&mut out, direction_word(*ascending));
                out
            },
            PipelineOperation::MultiSort { columns, ascending } => {
                let mut out = "多列排序 ".to_owned();
                append(&mut out, sort_keys_text(columns, ascending).as_str());
                out
            },
            PipelineOperation::PrioritySort { column, operator, value, placement, secondary_columns, secondary_ascending } => {
                let mut out = "条件优先排序 ".to_owned();
                append(&mut out, column.as_str());
                append(&mut out, " ");
                append(&mut out, operator.as_str());
                append(&mut out, " ");
                append(&mut out, value.as_str());
                append(&mut out, " (");
                append(&mut out, placement.as_str());
                append(&mut out, ")");
                out
            },
            PipelineOperation::AddRankColumn { target, columns, ascending } => {
                let mut out = "生成排名列 ".to_owned();
                append(&mut out, target.as_str());
                append(&mut out, " by ");
                append(&mut out, join_texts(columns, ", ").as_str());
                out
            },
            PipelineOperation::FillNullText { column, value } => {
                let mut out = "默认值填充 ".to_owned();
                append(&mut out, column.as_str());
                append(&mut out, " = ");
                append(&mut out, value.as_str());
                out
            },
            PipelineOperation::FillNullForward { column } => {
                let mut out = "前值填充 ".to_owned();
                append(&mut out, column.as_str());
                out
            },
            PipelineOperation::FillNullBackward { column } => {
                let mut out = "后值填充 ".to_owned();
                append(&mut out, column.as_str());
                out
            },
            PipelineOperation::FillNullStatistic { column, strategy } => {
                let mut out = "统计值填充 ".to_owned();
                append(&mut out, column.as_str());
                append(&mut out, " -> ");
                append(&mut out, strategy.as_str());
                out
            },
            PipelineOperation::EmptyStringToNull { column } => {
                let mut out = "空字符串转空值 ".to_owned();
                append(&mut out, column.as_str());
                out
            },
            PipelineOperation::ZeroToNull { column } => {
                let mut out = "零值转空值 ".to_owned();
                append(&mut out, column.as_str());
                out
            },
            PipelineOperation::ReplaceExactValue { column, from, to } => {
                let mut out = "指定值替换 ".to_owned();
                append(&mut out, column.as_str());
                append(&mut out, ": ");
                append(&mut out, from.as_str());
                append(&mut out, " -> ");
                append(&mut out, to.as_str());
                out
            },
            PipelineOperation::ConvertStringToNumeric { column } => {
                let mut out = "字符串转数值 ".to_owned();
                append(&mut out, column.as_str());
                out
            },
            PipelineOperation::ConvertStringToDateTime { column } => {
                let mut out = "字符串转日期 ".to_owned();
                append(&mut out, column.as_str());
                out
            },
            PipelineOperation::ConvertIntegerToFloat { column } => {
                let mut out = "整型转浮点 ".to_owned();
                append(&mut out, column.as_str());
                out
            },
            PipelineOperation::ConvertToBoolean { column } => {
                let mut out = "布尔值转换 ".to_owned();
                append(&mut out, column.as_str());
                out
            },
            PipelineOperation::CastColumn { column, target } => {
                let mut out = "类型转换 ".to_owned();
                append(&mut out, column.as_str());
                append(&mut out, " -> ");
                append(&mut out, target.as_str());
                out
            },
            PipelineOperation::TransformTextCase { column, mode } => {
                let mut out = "文本大小写统一 ".to_owned();
                append(&mut out, column.as_str());
                append(&mut out, " -> ");
                append(&mut out, mode.as_str());
                out
            },
            PipelineOperation::ReplaceText { column, from, to } => {
                let mut out = "文本替换 ".to_owned();
                append(&mut out, column.as_str());
                append(&mut out, ": ");
                append(&mut out, from.as_str());
                append(&mut out, " -> ");
                append(&mut out, to.as_str());
                out
            },
            PipelineOperation::SqueezeTextWhitespace { column } => {
                let mut out = "压缩空白 ".to_owned();
                append(&mut out, column.as_str());
                out
            },
            PipelineOperation::RemoveTextPattern { column, pattern } => {
                let mut out = "移除字符 ".to_owned();
                append(&mut out, column.as_str());
                append(&mut out, ": ");
                append(&mut out, pattern.as_str());
                out
            },
            PipelineOperation::ExtractTextBefore { column, delimiter } => {
                let mut out = "提取分隔符左侧 ".to_owned();
                append(&mut out, column.as_str());
                append(&mut out, " @ ");
                append(&mut out, delimiter.as_str());
                out
            },
            PipelineOperation::ExtractTextAfter { column, delimiter } => {
                let mut out = "提取分隔符右侧 ".to_owned();
                append(&mut out, column.as_str());
                append(&mut out, " @ ");
                append(&mut out, delimiter.as_str());
                out
            },
            PipelineOperation::KeepDigitsOnly { column } => {
                let mut out = "仅保留数字 ".to_owned();
                append(&mut out, column.as_str());
                out
            },
            PipelineOperation::AddTextAffix { column, prefix, suffix } => {
                let mut out = "添加前后缀 ".to_owned();
                append(&mut out, column.as_str());
                append(&mut out, ": ");
                append(&mut out, prefix.as_str());
                append(&mut out, "..");
                append(&mut out, suffix.as_str());
                out
            },
            PipelineOperation::TruncateText { column, max_chars } => {
                let mut out = "文本截断 ".to_owned();
                append(&mut out, column.as_str());
                append(&mut out, " -> ");
                append(&mut out, usize_to_text(*max_chars).as_str());
                append(&mut out, " 字符");
                out
            },
            PipelineOperation::RoundNumeric { column, digits } => {
                let mut out = "数值保留小数 ".to_owned();
                append(&mut out, column.as_str());
                append(&mut out, " -> ");
                append(&mut out, usize_to_text(*digits).as_str());
                append(&mut out, " 位");
                out
            },
            PipelineOperation::NormalizeDateTimeFormat { column } => {
                let mut out = "时间格式标准化 ".to_owned();
                append(&mut out, column.as_str());
                out
            },
            PipelineOperation::TimestampToDateTime { column } => {
                let mut out = "时间戳转换 ".to_owned();
                append(&mut out, column.as_str());
                out
            },
            PipelineOperation::ShiftDateTimeByMinutes { column, minutes } => {
                let mut out = "时间偏移 ".to_owned();
                append(&mut out, column.as_str());
                append(&mut out, " ");
                append(&mut out, i64_to_text(*minutes).as_str());
                append(&mut out, " 分钟");
                out
            },
            PipelineOperation::SplitDateTimeParts { column, prefix } => {
                let mut out = "日期拆分 ".to_owned();
                append(&mut out, column.as_str());
                append(&mut out, " -> ");
                append(&mut out, prefix.as_str());
                out
            },
            PipelineOperation::ExtractDateToColumn { column, target } => {
                let mut out = "提取日期 ".to_owned();
                append(&mut out, column.as_str());
                append(&mut out, " -> ");
                append(&mut out, target.as_str());
                out
            },
            PipelineOperation::ExtractYearToColumn { column, target } => {
                let mut out = "提取年 ".to_owned();
                append(&mut out, column.as_str());
                append(&mut out, " -> ");
                append(&mut out, target.as_str());
                out
            },
            PipelineOperation::ExtractMonthToColumn { column, target } => {
                let mut out = "提取月 ".to_owned();
                append(&mut out, column.as_str());
                append(&mut out, " -> ");
                append(&mut out, target.as_str());
                out
            },
            PipelineOperation::ExtractDayToColumn { column, target } => {
                let mut out = "提取日 ".to_owned();
                append(&mut out, column.as_str());
                append(&mut out, " -> ");
                append(&mut out, target.as_str());
                out
            },
            PipelineOperation::ExtractHourToColumn { column, target } => {
                let mut out = "提取小时 ".to_owned();
                append(&mut out, column.as_str());
                append(&mut out, " -> ");
                append(&mut out, target.as_str());
                out
            },
            PipelineOperation::FilterRowsByTimeWindow { column, start, end } => {
                let mut out = "时间窗口筛选 ".to_owned();
                append(&mut out, column.as_str());
                append(&mut out, " [");
                append(&mut out, start.as_str());
                append(&mut out, " , ");
                append(&mut out, end.as_str());
                append(&mut out, "]");
                out
            },
            PipelineOperation::SortByDateTime { column, ascending } => {
                let mut out = "时间排序 ".to_owned();
                append(&mut out, column.as_str());
                append(&mut out, " ");
                append(&mut out, direction_word(*ascending));
                out
            },
            PipelineOperation::GroupAggregate { group_columns, target_column, function } => {
                let mut out = "分组聚合 ".to_owned();
                append(&mut out, join_texts(group_columns, ", ").as_str());
                if *function == AggregateFunction::Count {
                    append(&mut out, " -> ");
                    append(&mut out, function.as_str());
                } else {
                    append(&mut out, " / ");
                    append(&mut out, target_column.as_str());
                    append(&mut out, " -> ");
                    append(&mut out, function.as_str());
                }
                out
            },
            PipelineOperation::RollingAggregate { group_columns, order_column, target_column, window_size, function, output_column } => {
                let mut out = "滚动统计 ".to_owned();
                append(&mut out, target_column.as_str());
                append(&mut out, " by ");
                append(&mut out, order_column.as_str());
                append(&mut out, " -> ");
                append(&mut out, output_column.as_str());
                append(&mut out, " (窗口 ");
                append(&mut out, usize_to_text(*window_size).as_str());
                append(&mut out, ", ");
                append(&mut out, function.as_str());
                append(&mut out, ")");
                out
            },
            PipelineOperation::CumulativeSum { group_columns, order_column, target_column, output_column } => {
                let mut out = "累积和 ".to_owned();
                append(&mut out, target_column.as_str());
                append(&mut out, " by ");
                append(&mut out, order_column.as_str());
                append(&mut out, " -> ");
                append(&mut out, output_column.as_str());
                out
            },
            PipelineOperation::MovingAverage { group_columns, order_column, target_column, window_size, output_column } => {
                let mut out = "滑动平均 ".to_owned();
                append(&mut out, target_column.as_str());
                append(&mut out, " by ");
                append(&mut out, order_column.as_str());
                append(&mut out, " -> ");
                append(&mut out, output_column.as_str());
                append(&mut out, " (窗口 ");
                append(&mut out, usize_to_text(*window_size).as_str());
                append(&mut out, ")");
                out
            },
            PipelineOperation::CompareAdjacent { group_columns, order_column, target_column, mode, output_column } => {
                let mut out = "邻近值比较 ".to_owned();
                append(&mut out, target_column.as_str());
                append(&mut out, " by ");
                append(&mut out, order_column.as_str());
                append(&mut out, " -> ");
                append(&mut out, output_column.as_str());
                append(&mut out, " (");
                append(&mut out, mode.as_str());
                append(&mut out, ")");
                out
            },
            PipelineOperation::ApplyMappings { mappings } => {
                let mut out = "应用推荐映射 ".to_owned();
                append(&mut out, usize_to_text(mappings.len()).as_str());
                append(&mut out, " 项");
                out
            },
        }
    }
}

/// What applying a step to `t` must give.
pub open spec fn operation_outcome(
    t: Seq<ColumnView>,
    op: PipelineOperation,
    r: Result<DataTable, TableError>,
) -> bool {
    match op {
        PipelineOperation::Reinspect => r matches Ok(out) && out@ == t,
        PipelineOperation::NormalizeColumnNames => r matches Ok(out) && out@ == normalized_names(t),
        PipelineOperation::TrimTextValues => r matches Ok(out) && out@ == trimmed_table(t),
        PipelineOperation::DropEmptyRows => r matches Ok(out) && out@ == nonblank_rows(t),
        PipelineOperation::DeduplicateRows => r matches Ok(out) && out@ == distinct_rows(t),
        PipelineOperation::FilterRowsContains { column, keyword } => keyword_outcome(t, column@, keyword@, r),
        PipelineOperation::KeepRowRange { start, end } => keep_row_range_outcome(t, start as int, end as int, r),
        PipelineOperation::KeepTopRows { count } => keep_top_rows_outcome(t, count as int, r),
        PipelineOperation::SampleRows { count } => sample_rows_outcome(t, count as nat, r),
        PipelineOperation::KeepRowsWithMissing { columns } => missing_outcome(t, columns.deep_view(), true, r),
        PipelineOperation::DropRowsWithMissing { columns } => missing_outcome(t, columns.deep_view(), false, r),
        PipelineOperation::DropRowsNotContains { column, keyword } => keyword_outcome(t, column@, keyword@, r),
        PipelineOperation::DropRowRange { start, end } => drop_row_range_outcome(t, start as int, end as int, r),
        PipelineOperation::DeduplicateByColumns { columns } => dedup_by_columns_outcome(t, columns.deep_view(), r),
        PipelineOperation::RenameColumn { from, to } => rename_outcome(t, from@, to@, r),
        PipelineOperation::KeepColumns { columns } => listed_outcome(t, columns.deep_view(), true, r),
        PipelineOperation::DropColumns { columns } => listed_outcome(t, columns.deep_view(), false, r),
        PipelineOperation::DropEmptyColumns => filter_outcome(t, with_content(), r),
        PipelineOperation::ReorderColumns { columns } => reorder_outcome(t, columns.deep_view(), r),
        PipelineOperation::AddColumnNameAffix { prefix, suffix } => affix_outcome(t, prefix@, suffix@, r),
        PipelineOperation::DuplicateColumn { source, target } => duplicate_outcome(t, source@, target@, r),
        PipelineOperation::MergeColumns { columns, target, separator } => merge_outcome(t, columns.deep_view(), target@, separator@, r),
        PipelineOperation::AddRowNumberColumn { column, start } => row_number_outcome(t, column@, start as int, r),
        PipelineOperation::AddConstantColumn { target, value } => constant_outcome(t, target@, value@, r),
        PipelineOperation::AddExpressionColumn { target, expression } => expression_outcome(t, target@, expression@, r),
        PipelineOperation::AddConditionalColumn { target, source_column, operator, compare_value, true_value, false_value } => conditional_outcome(t, target@, source_column@, operator, compare_value@, true_value@, false_value@, r),
        PipelineOperation::ConcatColumns { columns, target, separator } => concat_outcome(t, columns.deep_view(), target@, separator@, r),
        PipelineOperation::AddTimeDiffColumn { start_column, end_column, target, unit } => time_diff_outcome(t, start_column@, end_column@, target@, r),
        PipelineOperation::SortBy { column, ascending } => sort_outcome(t, column@, ascending, r),
        PipelineOperation::MultiSort { columns, ascending } => multi_sort_outcome(t, columns.deep_view(), ascending@, r),
        PipelineOperation::PrioritySort { column, operator, value, placement, secondary_columns, secondary_ascending } => priority_outcome(t, column@, operator, value@, placement, secondary_columns.deep_view(), secondary_ascending@, r),
        PipelineOperation::AddRankColumn { target, columns, ascending } => rank_outcome(t, target@, columns.deep_view(), ascending@, r),
        PipelineOperation::FillNullText { column, value } => edit_outcome(t, column@, EditView::FillBlank(value@), r),
        PipelineOperation::FillNullForward { column } => forward_fill_outcome(t, column@, r),
        PipelineOperation::FillNullBackward { column } => backward_fill_outcome(t, column@, r),
        PipelineOperation::FillNullStatistic { column, strategy } => statistic_outcome(t, column@, strategy, r),
        PipelineOperation::EmptyStringToNull { column } => edit_outcome(t, column@, EditView::BlankToMissing, r),
        PipelineOperation::ZeroToNull { column } => r == Err::<DataTable, TableError>(TableError::FloatArithmetic),
        PipelineOperation::ReplaceExactValue { column, from, to } => replace_exact_outcome(t, column@, from@, to@, r),
        PipelineOperation::ConvertStringToNumeric { column } => r == Err::<DataTable, TableError>(TableError::FloatArithmetic),
        PipelineOperation::ConvertStringToDateTime { column } => edit_outcome(t, column@, EditView::NormalizeDateTime, r),
        PipelineOperation::ConvertIntegerToFloat { column } => edit_outcome(t, column@, EditView::IntegerToFloat, r),
        PipelineOperation::ConvertToBoolean { column } => edit_outcome(t, column@, EditView::ToBoolean, r),
        PipelineOperation::CastColumn { column, target } => cast_outcome(t, column@, target, r),
        PipelineOperation::TransformTextCase { column, mode } => edit_outcome(t, column@, case_edit(mode), r),
        PipelineOperation::ReplaceText { column, from, to } => pattern_outcome(t, column@, from@, EditView::ReplaceText(from@, to@), r),
        PipelineOperation::SqueezeTextWhitespace { column } => edit_outcome(t, column@, EditView::SqueezeWhitespace, r),
        PipelineOperation::RemoveTextPattern { column, pattern } => pattern_outcome(t, column@, pattern@, EditView::ReplaceText(pattern@, Seq::empty()), r),
        PipelineOperation::ExtractTextBefore { column, delimiter } => pattern_outcome(t, column@, delimiter@, EditView::TextBefore(delimiter@), r),
        PipelineOperation::ExtractTextAfter { column, delimiter } => pattern_outcome(t, column@, delimiter@, EditView::TextAfter(delimiter@), r),
        PipelineOperation::KeepDigitsOnly { column } => edit_outcome(t, column@, EditView::DigitsOnly, r),
        PipelineOperation::AddTextAffix { column, prefix, suffix } => edit_outcome(t, column@, EditView::Affix(prefix@, suffix@), r),
        PipelineOperation::TruncateText { column, max_chars } => truncate_outcome(t, column@, max_chars as nat, r),
        PipelineOperation::RoundNumeric { column, digits } => r == Err::<DataTable, TableError>(TableError::FloatArithmetic),
        PipelineOperation::NormalizeDateTimeFormat { column } => edit_outcome(t, column@, EditView::NormalizeDateTime, r),
        PipelineOperation::TimestampToDateTime { column } => edit_outcome(t, column@, EditView::TimestampToDateTime, r),
        PipelineOperation::ShiftDateTimeByMinutes { column, minutes } => shift_outcome(t, column@, minutes, r),
        PipelineOperation::SplitDateTimeParts { column, prefix } => split_outcome(t, column@, prefix@, r),
        PipelineOperation::ExtractDateToColumn { column, target } => derived_outcome(t, column@, target@, date_column(target@), r),
        PipelineOperation::ExtractYearToColumn { column, target } => derived_outcome(t, column@, target@, part_column(target@, DatePart::Year), r),
        PipelineOperation::ExtractMonthToColumn { column, target } => derived_outcome(t, column@, target@, part_column(target@, DatePart::Month), r),
        PipelineOperation::ExtractDayToColumn { column, target } => derived_outcome(t, column@, target@, part_column(target@, DatePart::Day), r),
        PipelineOperation::ExtractHourToColumn { column, target } => derived_outcome(t, column@, target@, part_column(target@, DatePart::Hour), r),
        PipelineOperation::FilterRowsByTimeWindow { column, start, end } => window_outcome(t, column@, start@, end@, r),
        PipelineOperation::SortByDateTime { column, ascending } => datetime_sort_outcome(t, column@, ascending, r),
        PipelineOperation::GroupAggregate { group_columns, target_column, function } => group_outcome(t, group_columns.deep_view(), target_column@, function, r),
        PipelineOperation::RollingAggregate { group_columns, order_column, target_column, window_size, function, output_column } => if window_size == 0 {
            r == Err::<DataTable, TableError>(TableError::ZeroCount)
        } else {
            ordered_step_outcome(t, group_columns.deep_view(), order_column@, target_column@, output_column@, r)
        },
        PipelineOperation::CumulativeSum { group_columns, order_column, target_column, output_column } => ordered_step_outcome(t, group_columns.deep_view(), order_column@, target_column@, output_column@, r),
        PipelineOperation::MovingAverage { group_columns, order_column, target_column, window_size, output_column } => if window_size == 0 {
            r == Err::<DataTable, TableError>(TableError::ZeroCount)
        } else {
            ordered_step_outcome(t, group_columns.deep_view(), order_column@, target_column@, output_column@, r)
        },
        PipelineOperation::CompareAdjacent { group_columns, order_column, target_column, mode, output_column } => ordered_step_outcome(t, group_columns.deep_view(), order_column@, target_column@, output_column@, r),
        PipelineOperation::ApplyMappings { mappings } => r matches Ok(out) && out@ == mapped(t, mappings.deep_view()),
    }
}

/// What a step needs of the table: sort columns that reach the table's
/// height, and row numbers that fit in a `usize`.
pub open spec fn operation_ok(t: Seq<ColumnView>, op: PipelineOperation) -> bool {
    match op {
        PipelineOperation::SortBy { column, ascending } => sort_column_ok(t, column@),
        PipelineOperation::AddRowNumberColumn { column, start } => start + height_of(t)
            <= usize::MAX + 1,
        PipelineOperation::MultiSort { columns, ascending } => keys_reach(t, columns.deep_view()),
        PipelineOperation::PrioritySort { secondary_columns, .. } => keys_reach(t, secondary_columns.deep_view()),
        PipelineOperation::AddRankColumn { columns, .. } => keys_reach(t, columns.deep_view()),
        _ => true,
    }
}

/// Whether a step can be applied to the table (see `operation_ok`).
pub fn operation_fits(table: &DataTable, operation: &PipelineOperation) -> (r: bool)
    ensures
        r == operation_ok(table@, *operation),
{
    match operation {
        PipelineOperation::SortBy { column, .. } => match find_column(table, column.as_str()) {
            Some(p) => {
                proof {
                    lemma_column_position(table@, column@);
                }
                assert(table@[p as int] == table.columns@[p as int]@);
                table.columns[p].values.len() >= table.height()
            },
            None => true,
        },
        PipelineOperation::AddRowNumberColumn { start, .. } => {
            let h = table.height();
            let r = *start == 0 || h <= usize::MAX - (*start - 1);
            assert(r == operation_ok(table@, *operation));
            r
        },
        PipelineOperation::MultiSort { columns, .. } => keys_reach_table(table, columns),
        PipelineOperation::PrioritySort { secondary_columns, .. } => keys_reach_table(table, secondary_columns),
        PipelineOperation::AddRankColumn { columns, .. } => keys_reach_table(table, columns),
        _ => true,
    }
}

/// Applies one step to a table. Steps that compute with floating-point numbers
/// are refused with `FloatArithmetic` once their names and columns are checked.
pub fn apply_operation(table: &DataTable, operation: &PipelineOperation) -> (r: Result<
    DataTable,
    TableError,
>)
    requires
        operation_ok(table@, *operation),
    ensures
        operation_outcome(table@, *operation, r),
{
    match operation {
        PipelineOperation::Reinspect => Ok(table.duplicate()),
        PipelineOperation::NormalizeColumnNames => Ok(normalize_column_names(table)),
        PipelineOperation::TrimTextValues => Ok(trim_text_values(table)),
        PipelineOperation::DropEmptyRows => Ok(drop_empty_rows(table)),
        PipelineOperation::DeduplicateRows => Ok(deduplicate_rows(table)),
        PipelineOperation::FilterRowsContains { column, keyword } => filter_rows_contains(table, column.as_str(), keyword.as_str()),
        PipelineOperation::KeepRowRange { start, end } => keep_row_range(table, *start, *end),
        PipelineOperation::KeepTopRows { count } => keep_top_rows(table, *count),
        PipelineOperation::SampleRows { count } => sample_rows(table, *count),
        PipelineOperation::KeepRowsWithMissing { columns } => keep_rows_with_missing(table, columns),
        PipelineOperation::DropRowsWithMissing { columns } => drop_rows_with_missing(table, columns),
        PipelineOperation::DropRowsNotContains { column, keyword } => drop_rows_not_contains(table, column.as_str(), keyword.as_str()),
        PipelineOperation::DropRowRange { start, end } => drop_row_range(table, *start, *end),
        PipelineOperation::DeduplicateByColumns { columns } => deduplicate_by_columns(table, columns),
        PipelineOperation::RenameColumn { from, to } => rename_column(table, from.as_str(), to.as_str()),
        PipelineOperation::KeepColumns { columns } => keep_columns(table, columns),
        PipelineOperation::DropColumns { columns } => drop_columns(table, columns),
        PipelineOperation::DropEmptyColumns => drop_empty_columns(table),
        PipelineOperation::ReorderColumns { columns } => reorder_columns(table, columns),
        PipelineOperation::AddColumnNameAffix { prefix, suffix } => add_column_name_affix(table, prefix.as_str(), suffix.as_str()),
        PipelineOperation::DuplicateColumn { source, target } => duplicate_column(table, source.as_str(), target.as_str()),
        PipelineOperation::MergeColumns { columns, target, separator } => merge_columns(table, columns, target.as_str(), separator.as_str()),
        PipelineOperation::AddRowNumberColumn { column, start } => add_row_number_column(table, column.as_str(), *start),
        PipelineOperation::AddConstantColumn { target, value } => add_constant_column(table, target.as_str(), value.as_str()),
        PipelineOperation::AddExpressionColumn { target, expression } => check_expression_column(table, target.as_str(), expression.as_str()),
        PipelineOperation::AddConditionalColumn { target, source_column, operator, compare_value, true_value, false_value } => add_conditional_column(table, target.as_str(), source_column.as_str(), *operator, compare_value.as_str(), true_value.as_str(), false_value.as_str()),
        PipelineOperation::ConcatColumns { columns, target, separator } => concat_columns(table, columns, target.as_str(), separator.as_str()),
        PipelineOperation::AddTimeDiffColumn { start_column, end_column, target, .. } => check_time_diff_column(table, start_column.as_str(), end_column.as_str(), target.as_str()),
        PipelineOperation::SortBy { column, ascending } => sort_by_column(table, column.as_str(), *ascending),
        PipelineOperation::MultiSort { columns, ascending } => multi_sort(table, columns, ascending),
        PipelineOperation::PrioritySort { column, operator, value, placement, secondary_columns, secondary_ascending } => priority_sort(table, column.as_str(), *operator, value.as_str(), *placement, secondary_columns, secondary_ascending),
        PipelineOperation::AddRankColumn { target, columns, ascending } => add_rank_column(table, target.as_str(), columns, ascending),
        PipelineOperation::FillNullText { column, value } => fill_null_text(table, column.as_str(), value.as_str()),
        PipelineOperation::FillNullForward { column } => fill_null_forward(table, column.as_str()),
        PipelineOperation::FillNullBackward { column } => fill_null_backward(table, column.as_str()),
        PipelineOperation::FillNullStatistic { column, strategy } => fill_null_statistic(table, column.as_str(), *strategy),
        PipelineOperation::EmptyStringToNull { column } => empty_string_to_null(table, column.as_str()),
        PipelineOperation::ZeroToNull { column } => Err(TableError::FloatArithmetic),
        PipelineOperation::ReplaceExactValue { column, from, to } => replace_exact_value(table, column.as_str(), from.as_str(), to.as_str()),
        PipelineOperation::ConvertStringToNumeric { column } => Err(TableError::FloatArithmetic),
        PipelineOperation::ConvertStringToDateTime { column } => convert_string_to_datetime(table, column.as_str()),
        PipelineOperation::ConvertIntegerToFloat { column } => convert_integer_to_float(table, column.as_str()),
        PipelineOperation::ConvertToBoolean { column } => convert_to_boolean(table, column.as_str()),
        PipelineOperation::CastColumn { column, target } => cast_column(table, column.as_str(), *target),
        PipelineOperation::TransformTextCase { column, mode } => transform_text_case(table, column.as_str(), mode),
        PipelineOperation::ReplaceText { column, from, to } => replace_text(table, column.as_str(), from.as_str(), to.as_str()),
        PipelineOperation::SqueezeTextWhitespace { column } => squeeze_text_whitespace(table, column.as_str()),
        PipelineOperation::RemoveTextPattern { column, pattern } => remove_text_pattern(table, column.as_str(), pattern.as_str()),
        PipelineOperation::ExtractTextBefore { column, delimiter } => extract_text_before(table, column.as_str(), delimiter.as_str()),
        PipelineOperation::ExtractTextAfter { column, delimiter } => extract_text_after(table, column.as_str(), delimiter.as_str()),
        PipelineOperation::KeepDigitsOnly { column } => keep_digits_only(table, column.as_str()),
        PipelineOperation::AddTextAffix { column, prefix, suffix } => add_text_affix(table, column.as_str(), prefix.as_str(), suffix.as_str()),
        PipelineOperation::TruncateText { column, max_chars } => truncate_text(table, column.as_str(), *max_chars),
        PipelineOperation::RoundNumeric { column, digits } => Err(TableError::FloatArithmetic),
        PipelineOperation::NormalizeDateTimeFormat { column } => normalize_datetime_format(table, column.as_str()),
        PipelineOperation::TimestampToDateTime { column } => convert_timestamp_to_datetime(table, column.as_str()),
        PipelineOperation::ShiftDateTimeByMinutes { column, minutes } => shift_datetime_by_minutes(table, column.as_str(), *minutes),
        PipelineOperation::SplitDateTimeParts { column, prefix } => split_datetime_parts(table, column.as_str(), prefix.as_str()),
        PipelineOperation::ExtractDateToColumn { column, target } => extract_date_to_column(table, column.as_str(), target.as_str()),
        PipelineOperation::ExtractYearToColumn { column, target } => extract_year_to_column(table, column.as_str(), target.as_str()),
        PipelineOperation::ExtractMonthToColumn { column, target } => extract_month_to_column(table, column.as_str(), target.as_str()),
        PipelineOperation::ExtractDayToColumn { column, target } => extract_day_to_column(table, column.as_str(), target.as_str()),
        PipelineOperation::ExtractHourToColumn { column, target } => extract_hour_to_column(table, column.as_str(), target.as_str()),
        PipelineOperation::FilterRowsByTimeWindow { column, start, end } => filter_rows_by_time_window(table, column.as_str(), start.as_str(), end.as_str()),
        PipelineOperation::SortByDateTime { column, ascending } => sort_by_datetime(table, column.as_str(), *ascending),
        PipelineOperation::GroupAggregate { group_columns, target_column, function } => group_aggregate(table, group_columns, target_column.as_str(), *function),
        PipelineOperation::RollingAggregate { group_columns, order_column, target_column, window_size, output_column, .. } => if *window_size == 0 {
            Err(TableError::ZeroCount)
        } else {
            check_ordered_step(table, group_columns, order_column.as_str(), target_column.as_str(), output_column.as_str())
        },
        PipelineOperation::CumulativeSum { group_columns, order_column, target_column, output_column } => check_ordered_step(table, group_columns, order_column.as_str(), target_column.as_str(), output_column.as_str()),
        PipelineOperation::MovingAverage { group_columns, order_column, target_column, window_size, output_column } => if *window_size == 0 {
            Err(TableError::ZeroCount)
        } else {
            check_ordered_step(table, group_columns, order_column.as_str(), target_column.as_str(), output_column.as_str())
        },
        PipelineOperation::CompareAdjacent { group_columns, order_column, target_column, output_column, .. } => check_ordered_step(table, group_columns, order_column.as_str(), target_column.as_str(), output_column.as_str()),
        PipelineOperation::ApplyMappings { mappings } => Ok(apply_mappings(table, mappings)),
    }
}

/// The note a step of each kind is recorded with.
pub open spec fn step_note_spec(op: PipelineOperation) -> Seq<char> {
    match op {
        PipelineOperation::Reinspect => "基于当前工作表重新生成结构和质量分析"@,
        PipelineOperation::NormalizeColumnNames => "统一字段命名风格并消除重名冲突"@,
        PipelineOperation::TrimTextValues => "清除文本首尾空白，减少映射和融合时的脏值干扰"@,
        PipelineOperation::DropEmptyRows => "删除所有单元格均为空的记录"@,
        PipelineOperation::DeduplicateRows => "按整行内容删除重复记录"@,
        PipelineOperation::FilterRowsContains { .. } => "按关键字筛选记录，保留匹配行"@,
        PipelineOperation::KeepRowRange { .. } => "按行范围保留记录"@,
        PipelineOperation::KeepTopRows { .. } => "保留前 N 行，用于快速缩小工作集"@,
        PipelineOperation::SampleRows { .. } => "按全表均匀抽样，适合做预检和试验性处理"@,
        PipelineOperation::KeepRowsWithMissing { .. } => "保留指定字段中存在缺失值的记录"@,
        PipelineOperation::DropRowsWithMissing { .. } => "删除指定字段中存在缺失值的记录"@,
        PipelineOperation::DropRowsNotContains { .. } => "删除指定列中不包含关键字的记录"@,
        PipelineOperation::DropRowRange { .. } => "按行范围删除记录"@,
        PipelineOperation::DeduplicateByColumns { .. } => "按指定字段组合去重，保留首条记录"@,
        PipelineOperation::RenameColumn { .. } => "手动重命名列"@,
        PipelineOperation::KeepColumns { .. } => "保留指定列"@,
        PipelineOperation::DropColumns { .. } => "删除指定列"@,
        PipelineOperation::DropEmptyColumns => "删除整列为空的字段"@,
        PipelineOperation::ReorderColumns { .. } => "按指定顺序重排字段，未列出的字段顺延到后面"@,
        PipelineOperation::AddColumnNameAffix { .. } => "批量为字段名添加前后缀"@,
        PipelineOperation::DuplicateColumn { .. } => "复制字段生成新列"@,
        PipelineOperation::MergeColumns { .. } => "将多个字段合并为一个文本列"@,
        PipelineOperation::AddRowNumberColumn { .. } => "新增行序号列"@,
        PipelineOperation::AddConstantColumn { .. } => "新增整列相同的常量值字段"@,
        PipelineOperation::AddExpressionColumn { .. } => "按表达式计算生成新列，支持 {列名} 引用"@,
        PipelineOperation::AddConditionalColumn { .. } => "根据字段条件生成判断列"@,
        PipelineOperation::ConcatColumns { .. } => "按顺序拼接多个字段生成新列"@,
        PipelineOperation::AddTimeDiffColumn { .. } => "根据开始时间和结束时间生成时间差列"@,
        PipelineOperation::SortBy { .. } => "按指定列重新排序记录"@,
        PipelineOperation::MultiSort { .. } => "按多个字段依次排序当前数据集"@,
        PipelineOperation::PrioritySort { .. } => "将命中特定条件的记录优先置前或置后"@,
        PipelineOperation::AddRankColumn { .. } => "按排序字段生成排名列"@,
        PipelineOperation::FillNullText { .. } => "使用默认文本填充空值"@,
        PipelineOperation::FillNullForward { .. } => "使用前一个有效值向下填充空值"@,
        PipelineOperation::FillNullBackward { .. } => "使用后一个有效值向上回填空值"@,
        PipelineOperation::FillNullStatistic { .. } => "使用统计值填充空值"@,
        PipelineOperation::EmptyStringToNull { .. } => "将空字符串统一转为空值"@,
        PipelineOperation::ZeroToNull { .. } => "将零值统一转为空值"@,
        PipelineOperation::ReplaceExactValue { .. } => "按完整值精确替换字段内容"@,
        PipelineOperation::ConvertStringToNumeric { .. } => "将字符串字段转换为数值字段"@,
        PipelineOperation::ConvertStringToDateTime { .. } => "将字符串字段转换为日期时间字段"@,
        PipelineOperation::ConvertIntegerToFloat { .. } => "将整数字段转换为浮点字段"@,
        PipelineOperation::ConvertToBoolean { .. } => "将布尔语义字段统一转换为 true/false"@,
        PipelineOperation::CastColumn { .. } => "按目标逻辑类型重建字段解释方式"@,
        PipelineOperation::TransformTextCase { .. } => "统一文本大小写"@,
        PipelineOperation::ReplaceText { .. } => "按字段执行文本替换"@,
        PipelineOperation::SqueezeTextWhitespace { .. } => "压缩文本中的连续空白"@,
        PipelineOperation::RemoveTextPattern { .. } => "移除文本中的指定字符或片段"@,
        PipelineOperation::ExtractTextBefore { .. } => "提取分隔符左侧文本"@,
        PipelineOperation::ExtractTextAfter { .. } => "提取分隔符右侧文本"@,
        PipelineOperation::KeepDigitsOnly { .. } => "仅保留文本中的数字字符"@,
        PipelineOperation::AddTextAffix { .. } => "为文本统一添加前后缀"@,
        PipelineOperation::TruncateText { .. } => "按指定长度截断文本"@,
        PipelineOperation::RoundNumeric { .. } => "统一数值保留小数位"@,
        PipelineOperation::NormalizeDateTimeFormat { .. } => "统一时间字段格式"@,
        PipelineOperation::TimestampToDateTime { .. } => "将时间戳字段转换为标准日期时间"@,
        PipelineOperation::ShiftDateTimeByMinutes { .. } => "按分钟整体偏移时间字段"@,
        PipelineOperation::SplitDateTimeParts { .. } => "将时间字段拆分为年、月、日、时多个字段"@,
        PipelineOperation::ExtractDateToColumn { .. } => "从时间字段提取日期列"@,
        PipelineOperation::ExtractYearToColumn { .. } => "从时间字段提取年份列"@,
        PipelineOperation::ExtractMonthToColumn { .. } => "从时间字段提取月份列"@,
        PipelineOperation::ExtractDayToColumn { .. } => "从时间字段提取日列"@,
        PipelineOperation::ExtractHourToColumn { .. } => "从时间字段提取小时列"@,
        PipelineOperation::FilterRowsByTimeWindow { .. } => "按时间窗口筛选记录"@,
        PipelineOperation::SortByDateTime { .. } => "按时间字段排序"@,
        PipelineOperation::GroupAggregate { .. } => "按字段分组并生成聚合结果表"@,
        PipelineOperation::RollingAggregate { .. } => "按排序列执行滚动窗口统计并生成新列"@,
        PipelineOperation::CumulativeSum { .. } => "按排序列计算累积和并生成新列"@,
        PipelineOperation::MovingAverage { .. } => "按排序列计算滑动平均并生成新列"@,
        PipelineOperation::CompareAdjacent { .. } => "按排序列比较相邻记录并生成派生列"@,
        PipelineOperation::ApplyMappings { .. } => "根据标准字段字典将别名列统一成工程标准名"@,
    }
}

/// The note a step is recorded with (see `step_note_spec`).
pub fn step_note(op: &PipelineOperation) -> (r: &'static str)
    ensures
        r@ == step_note_spec(*op),
{
    match op {
        PipelineOperation::Reinspect => "基于当前工作表重新生成结构和质量分析",
        PipelineOperation::NormalizeColumnNames => "统一字段命名风格并消除重名冲突",
        PipelineOperation::TrimTextValues => "清除文本首尾空白，减少映射和融合时的脏值干扰",
        PipelineOperation::DropEmptyRows => "删除所有单元格均为空的记录",
        PipelineOperation::DeduplicateRows => "按整行内容删除重复记录",
        PipelineOperation::FilterRowsContains { .. } => "按关键字筛选记录，保留匹配行",
        PipelineOperation::KeepRowRange { .. } => "按行范围保留记录",
        PipelineOperation::KeepTopRows { .. } => "保留前 N 行，用于快速缩小工作集",
        PipelineOperation::SampleRows { .. } => "按全表均匀抽样，适合做预检和试验性处理",
        PipelineOperation::KeepRowsWithMissing { .. } => "保留指定字段中存在缺失值的记录",
        PipelineOperation::DropRowsWithMissing { .. } => "删除指定字段中存在缺失值的记录",
        PipelineOperation::DropRowsNotContains { .. } => "删除指定列中不包含关键字的记录",
        PipelineOperation::DropRowRange { .. } => "按行范围删除记录",
        PipelineOperation::DeduplicateByColumns { .. } => "按指定字段组合去重，保留首条记录",
        PipelineOperation::RenameColumn { .. } => "手动重命名列",
        PipelineOperation::KeepColumns { .. } => "保留指定列",
        PipelineOperation::DropColumns { .. } => "删除指定列",
        PipelineOperation::DropEmptyColumns => "删除整列为空的字段",
        PipelineOperation::ReorderColumns { .. } => "按指定顺序重排字段，未列出的字段顺延到后面",
        PipelineOperation::AddColumnNameAffix { .. } => "批量为字段名添加前后缀",
        PipelineOperation::DuplicateColumn { .. } => "复制字段生成新列",
        PipelineOperation::MergeColumns { .. } => "将多个字段合并为一个文本列",
        PipelineOperation::AddRowNumberColumn { .. } => "新增行序号列",
        PipelineOperation::AddConstantColumn { .. } => "新增整列相同的常量值字段",
        PipelineOperation::AddExpressionColumn { .. } => "按表达式计算生成新列，支持 {列名} 引用",
        PipelineOperation::AddConditionalColumn { .. } => "根据字段条件生成判断列",
        PipelineOperation::ConcatColumns { .. } => "按顺序拼接多个字段生成新列",
        PipelineOperation::AddTimeDiffColumn { .. } => "根据开始时间和结束时间生成时间差列",
        PipelineOperation::SortBy { .. } => "按指定列重新排序记录",
        PipelineOperation::MultiSort { .. } => "按多个字段依次排序当前数据集",
        PipelineOperation::PrioritySort { .. } => "将命中特定条件的记录优先置前或置后",
        PipelineOperation::AddRankColumn { .. } => "按排序字段生成排名列",
        PipelineOperation::FillNullText { .. } => "使用默认文本填充空值",
        PipelineOperation::FillNullForward { .. } => "使用前一个有效值向下填充空值",
        PipelineOperation::FillNullBackward { .. } => "使用后一个有效值向上回填空值",
        PipelineOperation::FillNullStatistic { .. } => "使用统计值填充空值",
        PipelineOperation::EmptyStringToNull { .. } => "将空字符串统一转为空值",
        PipelineOperation::ZeroToNull { .. } => "将零值统一转为空值",
        PipelineOperation::ReplaceExactValue { .. } => "按完整值精确替换字段内容",
        PipelineOperation::ConvertStringToNumeric { .. } => "将字符串字段转换为数值字段",
        PipelineOperation::ConvertStringToDateTime { .. } => "将字符串字段转换为日期时间字段",
        PipelineOperation::ConvertIntegerToFloat { .. } => "将整数字段转换为浮点字段",
        PipelineOperation::ConvertToBoolean { .. } => "将布尔语义字段统一转换为 true/false",
        PipelineOperation::CastColumn { .. } => "按目标逻辑类型重建字段解释方式",
        PipelineOperation::TransformTextCase { .. } => "统一文本大小写",
        PipelineOperation::ReplaceText { .. } => "按字段执行文本替换",
        PipelineOperation::SqueezeTextWhitespace { .. } => "压缩文本中的连续空白",
        PipelineOperation::RemoveTextPattern { .. } => "移除文本中的指定字符或片段",
        PipelineOperation::ExtractTextBefore { .. } => "提取分隔符左侧文本",
        PipelineOperation::ExtractTextAfter { .. } => "提取分隔符右侧文本",
        PipelineOperation::KeepDigitsOnly { .. } => "仅保留文本中的数字字符",
        PipelineOperation::AddTextAffix { .. } => "为文本统一添加前后缀",
        PipelineOperation::TruncateText { .. } => "按指定长度截断文本",
        PipelineOperation::RoundNumeric { .. } => "统一数值保留小数位",
        PipelineOperation::NormalizeDateTimeFormat { .. } => "统一时间字段格式",
        PipelineOperation::TimestampToDateTime { .. } => "将时间戳字段转换为标准日期时间",
        PipelineOperation::ShiftDateTimeByMinutes { .. } => "按分钟整体偏移时间字段",
        PipelineOperation::SplitDateTimeParts { .. } => "将时间字段拆分为年、月、日、时多个字段",
        PipelineOperation::ExtractDateToColumn { .. } => "从时间字段提取日期列",
        PipelineOperation::ExtractYearToColumn { .. } => "从时间字段提取年份列",
        PipelineOperation::ExtractMonthToColumn { .. } => "从时间字段提取月份列",
        PipelineOperation::ExtractDayToColumn { .. } => "从时间字段提取日列",
        PipelineOperation::ExtractHourToColumn { .. } => "从时间字段提取小时列",
        PipelineOperation::FilterRowsByTimeWindow { .. } => "按时间窗口筛选记录",
        PipelineOperation::SortByDateTime { .. } => "按时间字段排序",
        PipelineOperation::GroupAggregate { .. } => "按字段分组并生成聚合结果表",
        PipelineOperation::RollingAggregate { .. } => "按排序列执行滚动窗口统计并生成新列",
        PipelineOperation::CumulativeSum { .. } => "按排序列计算累积和并生成新列",
        PipelineOperation::MovingAverage { .. } => "按排序列计算滑动平均并生成新列",
        PipelineOperation::CompareAdjacent { .. } => "按排序列比较相邻记录并生成派生列",
        PipelineOperation::ApplyMappings { .. } => "根据标准字段字典将别名列统一成工程标准名",
    }
}

} // verus!
