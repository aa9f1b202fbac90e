//! The option enums of the table operations, read from user-facing words and
//! written back as labels.

use vstd::prelude::*;
use crate::text::{ascii_lower, ascii_upper, text_eq, to_ascii_lowercase, to_ascii_uppercase, trim, trim_spec};

verus! {

/// Trimmed text with ASCII letters lower-cased: how most option words are compared.
pub open spec fn folded_word(s: Seq<char>) -> Seq<char> {
    ascii_lower(trim_spec(s))
}

/// Trims a text and lower-cases its ASCII letters.
pub fn fold_word(s: &str) -> (r: String)
    ensures
        r@ == folded_word(s@),
{
    let t = trim(s);
    to_ascii_lowercase(t.as_str())
}

/// Trims a text and upper-cases its ASCII letters.
pub fn fold_word_upper(s: &str) -> (r: String)
    ensures
        r@ == ascii_upper(trim_spec(s@)),
{
    let t = trim(s);
    to_ascii_uppercase(t.as_str())
}

/// How rows of two tables are matched by key.
#[derive(Clone, Copy, Debug, PartialEq, Eq, Structural)]
pub enum JoinKind {
    Left,
    Inner,
    Outer,
}

/// The JoinKind a word names; any other word gives `Left`.
pub open spec fn join_kind_of(s: Seq<char>) -> JoinKind {
    let w = folded_word(s);
    if w == "inner"@ || w == "内连接"@ {
        JoinKind::Inner
    } else if w == "outer"@ || w == "full"@ || w == "外连接"@ {
        JoinKind::Outer
    } else {
        JoinKind::Left
    }
}

/// The label of each JoinKind.
pub open spec fn join_kind_label(k: JoinKind) -> Seq<char> {
    match k {
        JoinKind::Left => "左连接"@,
        JoinKind::Inner => "内连接"@,
        JoinKind::Outer => "外连接"@,
    }
}

impl JoinKind {
    /// Reads the option from its word.
    pub fn from_text(value: &str) -> (r: Self)
        ensures
            r == join_kind_of(value@),
    {
        let w = fold_word(value);
        let s = w.as_str();
        if text_eq(s, "inner") || text_eq(s, "内连接") {
            JoinKind::Inner
        } else if text_eq(s, "outer") || text_eq(s, "full") || text_eq(s, "外连接") {
            JoinKind::Outer
        } else {
            JoinKind::Left
        }
    }

    /// The option's label.
    pub fn as_str(&self) -> (r: &'static str)
        ensures
            r@ == join_kind_label(*self),
    {
        match self {
            JoinKind::Left => "左连接",
            JoinKind::Inner => "内连接",
            JoinKind::Outer => "外连接",
        }
    }
}

/// How a right-hand column whose name is taken is renamed.
#[derive(Clone, Copy, Debug, PartialEq, Eq, Structural)]
pub enum JoinConflictStrategy {
    AppendRightSuffix,
    PrefixRightMarker,
    KeepLeftOnly,
}

/// The JoinConflictStrategy a word names; any other word gives `AppendRightSuffix`.
pub open spec fn join_conflict_strategy_of(s: Seq<char>) -> JoinConflictStrategy {
    let w = folded_word(s);
    if w == "right_prefix"@ || w == "冲突列追加right前缀"@ {
        JoinConflictStrategy::PrefixRightMarker
    } else if w == "keep_left_only"@ || w == "仅保留主表字段"@ {
        JoinConflictStrategy::KeepLeftOnly
    } else {
        JoinConflictStrategy::AppendRightSuffix
    }
}

/// The label of each JoinConflictStrategy.
pub open spec fn join_conflict_strategy_label(k: JoinConflictStrategy) -> Seq<char> {
    match k {
        JoinConflictStrategy::AppendRightSuffix => "冲突列追加_right"@,
        JoinConflictStrategy::PrefixRightMarker => "冲突列追加right前缀"@,
        JoinConflictStrategy::KeepLeftOnly => "仅保留主表字段"@,
    }
}

impl JoinConflictStrategy {
    /// Reads the option from its word.
    pub fn from_text(value: &str) -> (r: Self)
        ensures
            r == join_conflict_strategy_of(value@),
    {
        let w = fold_word(value);
        let s = w.as_str();
        if text_eq(s, "right_prefix") || text_eq(s, "冲突列追加right前缀") {
            JoinConflictStrategy::PrefixRightMarker
        } else if text_eq(s, "keep_left_only") || text_eq(s, "仅保留主表字段") {
            JoinConflictStrategy::KeepLeftOnly
        } else {
            JoinConflictStrategy::AppendRightSuffix
        }
    }

    /// The option's label.
    pub fn as_str(&self) -> (r: &'static str)
        ensures
            r@ == join_conflict_strategy_label(*self),
    {
        match self {
            JoinConflictStrategy::AppendRightSuffix => "冲突列追加_right",
            JoinConflictStrategy::PrefixRightMarker => "冲突列追加right前缀",
            JoinConflictStrategy::KeepLeftOnly => "仅保留主表字段",
        }
    }
}

/// Target case of a text conversion.
#[derive(Clone, Copy, Debug, PartialEq, Eq, Structural)]
pub enum TextCaseMode {
    Upper,
    Lower,
}

/// The TextCaseMode a word names; any other word gives `Upper`.
pub open spec fn text_case_mode_of(s: Seq<char>) -> TextCaseMode {
    let w = folded_word(s);
    if w == "lower"@ || w == "小写"@ {
        TextCaseMode::Lower
    } else {
        TextCaseMode::Upper
    }
}

/// The label of each TextCaseMode.
pub open spec fn text_case_mode_label(k: TextCaseMode) -> Seq<char> {
    match k {
        TextCaseMode::Upper => "大写"@,
        TextCaseMode::Lower => "小写"@,
    }
}

impl TextCaseMode {
    /// Reads the option from its word.
    pub fn from_text(value: &str) -> (r: Self)
        ensures
            r == text_case_mode_of(value@),
    {
        let w = fold_word(value);
        let s = w.as_str();
        if text_eq(s, "lower") || text_eq(s, "小写") {
            TextCaseMode::Lower
        } else {
            TextCaseMode::Upper
        }
    }

    /// The option's label.
    pub fn as_str(&self) -> (r: &'static str)
        ensures
            r@ == text_case_mode_label(*self),
    {
        match self {
            TextCaseMode::Upper => "大写",
            TextCaseMode::Lower => "小写",
        }
    }
}

/// Statistic computed per group.
#[derive(Clone, Copy, Debug, PartialEq, Eq, Structural)]
pub enum AggregateFunction {
    Sum,
    Mean,
    Max,
    Min,
    Count,
    CountDistinct,
}

/// The AggregateFunction a word names; any other word gives `Count`.
pub open spec fn aggregate_function_of(s: Seq<char>) -> AggregateFunction {
    let w = folded_word(s);
    if w == "sum"@ || w == "求和"@ {
        AggregateFunction::Sum
    } else if w == "mean"@ || w == "avg"@ || w == "average"@ || w == "平均值"@ {
        AggregateFunction::Mean
    } else if w == "max"@ || w == "最大值"@ {
        AggregateFunction::Max
    } else if w == "min"@ || w == "最小值"@ {
        AggregateFunction::Min
    } else if w == "nunique"@ || w == "count_distinct"@ || w == "去重计数"@ {
        AggregateFunction::CountDistinct
    } else {
        AggregateFunction::Count
    }
}

/// The label of each AggregateFunction.
pub open spec fn aggregate_function_label(k: AggregateFunction) -> Seq<char> {
    match k {
        AggregateFunction::Sum => "求和"@,
        AggregateFunction::Mean => "平均值"@,
        AggregateFunction::Max => "最大值"@,
        AggregateFunction::Min => "最小值"@,
        AggregateFunction::Count => "计数"@,
        AggregateFunction::CountDistinct => "去重计数"@,
    }
}

impl AggregateFunction {
    /// Reads the option from its word.
    pub fn from_text(value: &str) -> (r: Self)
        ensures
            r == aggregate_function_of(value@),
    {
        let w = fold_word(value);
        let s = w.as_str();
        if text_eq(s, "sum") || text_eq(s, "求和") {
            AggregateFunction::Sum
        } else if text_eq(s, "mean") || text_eq(s, "avg") || text_eq(s, "average") || text_eq(s, "平均值") {
            AggregateFunction::Mean
        } else if text_eq(s, "max") || text_eq(s, "最大值") {
            AggregateFunction::Max
        } else if text_eq(s, "min") || text_eq(s, "最小值") {
            AggregateFunction::Min
        } else if text_eq(s, "nunique") || text_eq(s, "count_distinct") || text_eq(s, "去重计数") {
            AggregateFunction::CountDistinct
        } else {
            AggregateFunction::Count
        }
    }

    /// The option's label.
    pub fn as_str(&self) -> (r: &'static str)
        ensures
            r@ == aggregate_function_label(*self),
    {
        match self {
            AggregateFunction::Sum => "求和",
            AggregateFunction::Mean => "平均值",
            AggregateFunction::Max => "最大值",
            AggregateFunction::Min => "最小值",
            AggregateFunction::Count => "计数",
            AggregateFunction::CountDistinct => "去重计数",
        }
    }
}

/// Comparison of a cell with a value.
#[derive(Clone, Copy, Debug, PartialEq, Eq, Structural)]
pub enum CompareOperator {
    Eq,
    NotEq,
    Greater,
    GreaterEqual,
    Less,
    LessEqual,
    Contains,
    IsEmpty,
}

/// The CompareOperator a word names; any other word gives `Eq`.
pub open spec fn compare_operator_of(s: Seq<char>) -> CompareOperator {
    let w = folded_word(s);
    if w == "!="@ || w == "<>"@ || w == "不等于"@ {
        CompareOperator::NotEq
    } else if w == ">"@ || w == "大于"@ {
        CompareOperator::Greater
    } else if w == ">="@ || w == "大于等于"@ {
        CompareOperator::GreaterEqual
    } else if w == "<"@ || w == "小于"@ {
        CompareOperator::Less
    } else if w == "<="@ || w == "小于等于"@ {
        CompareOperator::LessEqual
    } else if w == "contains"@ || w == "包含"@ {
        CompareOperator::Contains
    } else if w == "empty"@ || w == "is_empty"@ || w == "为空"@ {
        CompareOperator::IsEmpty
    } else {
        CompareOperator::Eq
    }
}

/// The label of each CompareOperator.
pub open spec fn compare_operator_label(k: CompareOperator) -> Seq<char> {
    match k {
        CompareOperator::Eq => "="@,
        CompareOperator::NotEq => "!="@,
        CompareOperator::Greater => ">"@,
        CompareOperator::GreaterEqual => ">="@,
        CompareOperator::Less => "<"@,
        CompareOperator::LessEqual => "<="@,
        CompareOperator::Contains => "包含"@,
        CompareOperator::IsEmpty => "为空"@,
    }
}

impl CompareOperator {
    /// Reads the option from its word.
    pub fn from_text(value: &str) -> (r: Self)
        ensures
            r == compare_operator_of(value@),
    {
        let w = fold_word(value);
        let s = w.as_str();
        if text_eq(s, "!=") || text_eq(s, "<>") || text_eq(s, "不等于") {
            CompareOperator::NotEq
        } else if text_eq(s, ">") || text_eq(s, "大于") {
            CompareOperator::Greater
        } else if text_eq(s, ">=") || text_eq(s, "大于等于") {
            CompareOperator::GreaterEqual
        } else if text_eq(s, "<") || text_eq(s, "小于") {
            CompareOperator::Less
        } else if text_eq(s, "<=") || text_eq(s, "小于等于") {
            CompareOperator::LessEqual
        } else if text_eq(s, "contains") || text_eq(s, "包含") {
            CompareOperator::Contains
        } else if text_eq(s, "empty") || text_eq(s, "is_empty") || text_eq(s, "为空") {
            CompareOperator::IsEmpty
        } else {
            CompareOperator::Eq
        }
    }

    /// The option's label.
    pub fn as_str(&self) -> (r: &'static str)
        ensures
            r@ == compare_operator_label(*self),
    {
        match self {
            CompareOperator::Eq => "=",
            CompareOperator::NotEq => "!=",
            CompareOperator::Greater => ">",
            CompareOperator::GreaterEqual => ">=",
            CompareOperator::Less => "<",
            CompareOperator::LessEqual => "<=",
            CompareOperator::Contains => "包含",
            CompareOperator::IsEmpty => "为空",
        }
    }
}

/// Unit of a time difference.
#[derive(Clone, Copy, Debug, PartialEq, Eq, Structural)]
pub enum TimeDiffUnit {
    Seconds,
    Minutes,
    Hours,
    Days,
}

/// The TimeDiffUnit a word names; any other word gives `Minutes`.
pub open spec fn time_diff_unit_of(s: Seq<char>) -> TimeDiffUnit {
    let w = folded_word(s);
    if w == "秒"@ || w == "second"@ || w == "seconds"@ {
        TimeDiffUnit::Seconds
    } else if w == "小时"@ || w == "hour"@ || w == "hours"@ {
        TimeDiffUnit::Hours
    } else if w == "天"@ || w == "day"@ || w == "days"@ {
        TimeDiffUnit::Days
    } else {
        TimeDiffUnit::Minutes
    }
}

/// The label of each TimeDiffUnit.
pub open spec fn time_diff_unit_label(k: TimeDiffUnit) -> Seq<char> {
    match k {
        TimeDiffUnit::Seconds => "秒"@,
        TimeDiffUnit::Minutes => "分钟"@,
        TimeDiffUnit::Hours => "小时"@,
        TimeDiffUnit::Days => "天"@,
    }
}

impl TimeDiffUnit {
    /// Reads the option from its word.
    pub fn from_text(value: &str) -> (r: Self)
        ensures
            r == time_diff_unit_of(value@),
    {
        let w = fold_word(value);
        let s = w.as_str();
        if text_eq(s, "秒") || text_eq(s, "second") || text_eq(s, "seconds") {
            TimeDiffUnit::Seconds
        } else if text_eq(s, "小时") || text_eq(s, "hour") || text_eq(s, "hours") {
            TimeDiffUnit::Hours
        } else if text_eq(s, "天") || text_eq(s, "day") || text_eq(s, "days") {
            TimeDiffUnit::Days
        } else {
            TimeDiffUnit::Minutes
        }
    }

    /// The option's label.
    pub fn as_str(&self) -> (r: &'static str)
        ensures
            r@ == time_diff_unit_label(*self),
    {
        match self {
            TimeDiffUnit::Seconds => "秒",
            TimeDiffUnit::Minutes => "分钟",
            TimeDiffUnit::Hours => "小时",
            TimeDiffUnit::Days => "天",
        }
    }
}

/// Where matching rows go in a priority sort.
#[derive(Clone, Copy, Debug, PartialEq, Eq, Structural)]
pub enum PriorityPlacement {
    First,
    Last,
}

/// The PriorityPlacement a word names; any other word gives `First`.
pub open spec fn priority_placement_of(s: Seq<char>) -> PriorityPlacement {
    let w = trim_spec(s);
    if w == "优先置后"@ {
        PriorityPlacement::Last
    } else {
        PriorityPlacement::First
    }
}

/// The label of each PriorityPlacement.
pub open spec fn priority_placement_label(k: PriorityPlacement) -> Seq<char> {
    match k {
        PriorityPlacement::First => "优先置前"@,
        PriorityPlacement::Last => "优先置后"@,
    }
}

impl PriorityPlacement {
    /// Reads the option from its word.
    pub fn from_text(value: &str) -> (r: Self)
        ensures
            r == priority_placement_of(value@),
    {
        let w = trim(value);
        let s = w.as_str();
        if text_eq(s, "优先置后") {
            PriorityPlacement::Last
        } else {
            PriorityPlacement::First
        }
    }

    /// The option's label.
    pub fn as_str(&self) -> (r: &'static str)
        ensures
            r@ == priority_placement_label(*self),
    {
        match self {
            PriorityPlacement::First => "优先置前",
            PriorityPlacement::Last => "优先置后",
        }
    }
}

/// How a value is compared with its predecessor.
#[derive(Clone, Copy, Debug, PartialEq, Eq, Structural)]
pub enum AdjacentCompareMode {
    Difference,
    ChangeRate,
    IncreaseFlag,
    DecreaseFlag,
}

/// The AdjacentCompareMode a word names; any other word gives `Difference`.
pub open spec fn adjacent_compare_mode_of(s: Seq<char>) -> AdjacentCompareMode {
    let w = folded_word(s);
    if w == "变化率"@ || w == "rate"@ {
        AdjacentCompareMode::ChangeRate
    } else if w == "是否上升"@ || w == "increase"@ {
        AdjacentCompareMode::IncreaseFlag
    } else if w == "是否下降"@ || w == "decrease"@ {
        AdjacentCompareMode::DecreaseFlag
    } else {
        AdjacentCompareMode::Difference
    }
}

/// The label of each AdjacentCompareMode.
pub open spec fn adjacent_compare_mode_label(k: AdjacentCompareMode) -> Seq<char> {
    match k {
        AdjacentCompareMode::Difference => "差值"@,
        AdjacentCompareMode::ChangeRate => "变化率"@,
        AdjacentCompareMode::IncreaseFlag => "是否上升"@,
        AdjacentCompareMode::DecreaseFlag => "是否下降"@,
    }
}

impl AdjacentCompareMode {
    /// Reads the option from its word.
    pub fn from_text(value: &str) -> (r: Self)
        ensures
            r == adjacent_compare_mode_of(value@),
    {
        let w = fold_word(value);
        let s = w.as_str();
        if text_eq(s, "变化率") || text_eq(s, "rate") {
            AdjacentCompareMode::ChangeRate
        } else if text_eq(s, "是否上升") || text_eq(s, "increase") {
            AdjacentCompareMode::IncreaseFlag
        } else if text_eq(s, "是否下降") || text_eq(s, "decrease") {
            AdjacentCompareMode::DecreaseFlag
        } else {
            AdjacentCompareMode::Difference
        }
    }

    /// The option's label.
    pub fn as_str(&self) -> (r: &'static str)
        ensures
            r@ == adjacent_compare_mode_label(*self),
    {
        match self {
            AdjacentCompareMode::Difference => "差值",
            AdjacentCompareMode::ChangeRate => "变化率",
            AdjacentCompareMode::IncreaseFlag => "是否上升",
            AdjacentCompareMode::DecreaseFlag => "是否下降",
        }
    }
}

/// Statistic used to fill blank cells.
#[derive(Clone, Copy, Debug, PartialEq, Eq, Structural)]
pub enum StatisticFillStrategy {
    Mean,
    Median,
    Mode,
}

/// The StatisticFillStrategy a word names; any other word gives `Mean`.
pub open spec fn statistic_fill_strategy_of(s: Seq<char>) -> StatisticFillStrategy {
    let w = folded_word(s);
    if w == "median"@ || w == "中位数"@ {
        StatisticFillStrategy::Median
    } else if w == "mode"@ || w == "众数"@ {
        StatisticFillStrategy::Mode
    } else {
        StatisticFillStrategy::Mean
    }
}

/// The label of each StatisticFillStrategy.
pub open spec fn statistic_fill_strategy_label(k: StatisticFillStrategy) -> Seq<char> {
    match k {
        StatisticFillStrategy::Mean => "均值"@,
        StatisticFillStrategy::Median => "中位数"@,
        StatisticFillStrategy::Mode => "众数"@,
    }
}

impl StatisticFillStrategy {
    /// Reads the option from its word.
    pub fn from_text(value: &str) -> (r: Self)
        ensures
            r == statistic_fill_strategy_of(value@),
    {
        let w = fold_word(value);
        let s = w.as_str();
        if text_eq(s, "median") || text_eq(s, "中位数") {
            StatisticFillStrategy::Median
        } else if text_eq(s, "mode") || text_eq(s, "众数") {
            StatisticFillStrategy::Mode
        } else {
            StatisticFillStrategy::Mean
        }
    }

    /// The option's label.
    pub fn as_str(&self) -> (r: &'static str)
        ensures
            r@ == statistic_fill_strategy_label(*self),
    {
        match self {
            StatisticFillStrategy::Mean => "均值",
            StatisticFillStrategy::Median => "中位数",
            StatisticFillStrategy::Mode => "众数",
        }
    }
}

/// How secondary records are aligned in time with the primary source.
#[derive(Clone, Copy, Debug, PartialEq, Eq, Structural)]
pub enum FusionAlignmentMode {
    ExactTime,
    ExactThenNearest,
    NearestWithinWindow,
    ExactThenWindow,
    WindowAggregation,
    ResampleNearest,
}

/// The FusionAlignmentMode a word names; any other word gives `ExactTime`.
pub open spec fn fusion_alignment_mode_of(s: Seq<char>) -> FusionAlignmentMode {
    let w = trim_spec(s);
    if w == "精确优先，最近邻兜底"@ {
        FusionAlignmentMode::ExactThenNearest
    } else if w == "按时间窗聚合"@ {
        FusionAlignmentMode::WindowAggregation
    } else if w == "精确优先，时间窗聚合兜底"@ {
        FusionAlignmentMode::ExactThenWindow
    } else if w == "按重采样对齐"@ {
        FusionAlignmentMode::ResampleNearest
    } else if w == "按最近邻对齐"@ {
        FusionAlignmentMode::NearestWithinWindow
    } else {
        FusionAlignmentMode::ExactTime
    }
}

/// The label of each FusionAlignmentMode.
pub open spec fn fusion_alignment_mode_label(k: FusionAlignmentMode) -> Seq<char> {
    match k {
        FusionAlignmentMode::ExactTime => "按时间精确对齐"@,
        FusionAlignmentMode::ExactThenNearest => "精确优先，最近邻兜底"@,
        FusionAlignmentMode::NearestWithinWindow => "按最近邻对齐"@,
        FusionAlignmentMode::ExactThenWindow => "精确优先，时间窗聚合兜底"@,
        FusionAlignmentMode::WindowAggregation => "按时间窗聚合"@,
        FusionAlignmentMode::ResampleNearest => "按重采样对齐"@,
    }
}

impl FusionAlignmentMode {
    /// Reads the option from its word.
    pub fn from_text(value: &str) -> (r: Self)
        ensures
            r == fusion_alignment_mode_of(value@),
    {
        let w = trim(value);
        let s = w.as_str();
        if text_eq(s, "精确优先，最近邻兜底") {
            FusionAlignmentMode::ExactThenNearest
        } else if text_eq(s, "按时间窗聚合") {
            FusionAlignmentMode::WindowAggregation
        } else if text_eq(s, "精确优先，时间窗聚合兜底") {
            FusionAlignmentMode::ExactThenWindow
        } else if text_eq(s, "按重采样对齐") {
            FusionAlignmentMode::ResampleNearest
        } else if text_eq(s, "按最近邻对齐") {
            FusionAlignmentMode::NearestWithinWindow
        } else {
            FusionAlignmentMode::ExactTime
        }
    }

    /// The option's label.
    pub fn as_str(&self) -> (r: &'static str)
        ensures
            r@ == fusion_alignment_mode_label(*self),
    {
        match self {
            FusionAlignmentMode::ExactTime => "按时间精确对齐",
            FusionAlignmentMode::ExactThenNearest => "精确优先，最近邻兜底",
            FusionAlignmentMode::NearestWithinWindow => "按最近邻对齐",
            FusionAlignmentMode::ExactThenWindow => "精确优先，时间窗聚合兜底",
            FusionAlignmentMode::WindowAggregation => "按时间窗聚合",
            FusionAlignmentMode::ResampleNearest => "按重采样对齐",
        }
    }
}

/// How gaps left after alignment are treated.
#[derive(Clone, Copy, Debug, PartialEq, Eq, Structural)]
pub enum FusionMissingStrategy {
    KeepNull,
    ForwardFill,
    BackwardFill,
    NearestFill,
    LinearInterpolate,
    WindowMean,
}

/// The FusionMissingStrategy a word names; any other word gives `KeepNull`.
pub open spec fn fusion_missing_strategy_of(s: Seq<char>) -> FusionMissingStrategy {
    let w = trim_spec(s);
    if w == "前向填充"@ {
        FusionMissingStrategy::ForwardFill
    } else if w == "后向填充"@ {
        FusionMissingStrategy::BackwardFill
    } else if w == "前后就近填充"@ {
        FusionMissingStrategy::NearestFill
    } else if w == "线性插值"@ {
        FusionMissingStrategy::LinearInterpolate
    } else if w == "窗口均值"@ {
        FusionMissingStrategy::WindowMean
    } else {
        FusionMissingStrategy::KeepNull
    }
}

/// The label of each FusionMissingStrategy.
pub open spec fn fusion_missing_strategy_label(k: FusionMissingStrategy) -> Seq<char> {
    match k {
        FusionMissingStrategy::KeepNull => "保持空值并标记"@,
        FusionMissingStrategy::ForwardFill => "前向填充"@,
        FusionMissingStrategy::BackwardFill => "后向填充"@,
        FusionMissingStrategy::NearestFill => "前后就近填充"@,
        FusionMissingStrategy::LinearInterpolate => "线性插值"@,
        FusionMissingStrategy::WindowMean => "窗口均值"@,
    }
}

impl FusionMissingStrategy {
    /// Reads the option from its word.
    pub fn from_text(value: &str) -> (r: Self)
        ensures
            r == fusion_missing_strategy_of(value@),
    {
        let w = trim(value);
        let s = w.as_str();
        if text_eq(s, "前向填充") {
            FusionMissingStrategy::ForwardFill
        } else if text_eq(s, "后向填充") {
            FusionMissingStrategy::BackwardFill
        } else if text_eq(s, "前后就近填充") {
            FusionMissingStrategy::NearestFill
        } else if text_eq(s, "线性插值") {
            FusionMissingStrategy::LinearInterpolate
        } else if text_eq(s, "窗口均值") {
            FusionMissingStrategy::WindowMean
        } else {
            FusionMissingStrategy::KeepNull
        }
    }

    /// The option's label.
    pub fn as_str(&self) -> (r: &'static str)
        ensures
            r@ == fusion_missing_strategy_label(*self),
    {
        match self {
            FusionMissingStrategy::KeepNull => "保持空值并标记",
            FusionMissingStrategy::ForwardFill => "前向填充",
            FusionMissingStrategy::BackwardFill => "后向填充",
            FusionMissingStrategy::NearestFill => "前后就近填充",
            FusionMissingStrategy::LinearInterpolate => "线性插值",
            FusionMissingStrategy::WindowMean => "窗口均值",
        }
    }
}

/// Which source wins when aligned values disagree.
#[derive(Clone, Copy, Debug, PartialEq, Eq, Structural)]
pub enum FusionStrategy {
    PrimaryFirst,
    SecondaryFirst,
    ConfidenceWeighted,
    NumericAverage,
    ComplementaryFill,
    ConflictRetention,
}

/// The FusionStrategy a word names; any other word gives `PrimaryFirst`.
pub open spec fn fusion_strategy_of(s: Seq<char>) -> FusionStrategy {
    let w = trim_spec(s);
    if w == "辅源优先"@ {
        FusionStrategy::SecondaryFirst
    } else if w == "质量加权"@ {
        FusionStrategy::ConfidenceWeighted
    } else if w == "数值均值"@ {
        FusionStrategy::NumericAverage
    } else if w == "互补填充"@ {
        FusionStrategy::ComplementaryFill
    } else if w == "冲突保留"@ {
        FusionStrategy::ConflictRetention
    } else {
        FusionStrategy::PrimaryFirst
    }
}

impl FusionStrategy {
    /// Reads the option from its word.
    pub fn from_text(value: &str) -> (r: Self)
        ensures
            r == fusion_strategy_of(value@),
    {
        let w = trim(value);
        let s = w.as_str();
        if text_eq(s, "辅源优先") {
            FusionStrategy::SecondaryFirst
        } else if text_eq(s, "质量加权") {
            FusionStrategy::ConfidenceWeighted
        } else if text_eq(s, "数值均值") {
            FusionStrategy::NumericAverage
        } else if text_eq(s, "互补填充") {
            FusionStrategy::ComplementaryFill
        } else if text_eq(s, "冲突保留") {
            FusionStrategy::ConflictRetention
        } else {
            FusionStrategy::PrimaryFirst
        }
    }
}

/// Kind of chart.
#[derive(Clone, Copy, Debug, PartialEq, Eq, Structural)]
pub enum VisualizationChartType {
    Line,
    Area,
    Scatter,
    Bar,
    Histogram,
    Pie,
    Box,
    Violin,
    Lollipop,
    Funnel,
    Heatmap,
}

/// The VisualizationChartType a word names; any other word gives `Line`.
pub open spec fn visualization_chart_type_of(s: Seq<char>) -> VisualizationChartType {
    let w = trim_spec(s);
    if w == "面积图"@ {
        VisualizationChartType::Area
    } else if w == "散点图"@ {
        VisualizationChartType::Scatter
    } else if w == "柱状图"@ {
        VisualizationChartType::Bar
    } else if w == "直方图"@ {
        VisualizationChartType::Histogram
    } else if w == "饼图"@ {
        VisualizationChartType::Pie
    } else if w == "箱线图"@ {
        VisualizationChartType::Box
    } else if w == "小提琴图"@ {
        VisualizationChartType::Violin
    } else if w == "棒棒糖图"@ {
        VisualizationChartType::Lollipop
    } else if w == "漏斗图"@ {
        VisualizationChartType::Funnel
    } else if w == "热力图"@ {
        VisualizationChartType::Heatmap
    } else {
        VisualizationChartType::Line
    }
}

/// The label of each VisualizationChartType.
pub open spec fn visualization_chart_type_label(k: VisualizationChartType) -> Seq<char> {
    match k {
        VisualizationChartType::Line => "折线图"@,
        VisualizationChartType::Area => "面积图"@,
        VisualizationChartType::Scatter => "散点图"@,
        VisualizationChartType::Bar => "柱状图"@,
        VisualizationChartType::Histogram => "直方图"@,
        VisualizationChartType::Pie => "饼图"@,
        VisualizationChartType::Box => "箱线图"@,
        VisualizationChartType::Violin => "小提琴图"@,
        VisualizationChartType::Lollipop => "棒棒糖图"@,
        VisualizationChartType::Funnel => "漏斗图"@,
        VisualizationChartType::Heatmap => "热力图"@,
    }
}

impl VisualizationChartType {
    /// Reads the option from its word.
    pub fn from_text(value: &str) -> (r: Self)
        ensures
            r == visualization_chart_type_of(value@),
    {
        let w = trim(value);
        let s = w.as_str();
        if text_eq(s, "面积图") {
            VisualizationChartType::Area
        } else if text_eq(s, "散点图") {
            VisualizationChartType::Scatter
        } else if text_eq(s, "柱状图") {
            VisualizationChartType::Bar
        } else if text_eq(s, "直方图") {
            VisualizationChartType::Histogram
        } else if text_eq(s, "饼图") {
            VisualizationChartType::Pie
        } else if text_eq(s, "箱线图") {
            VisualizationChartType::Box
        } else if text_eq(s, "小提琴图") {
            VisualizationChartType::Violin
        } else if text_eq(s, "棒棒糖图") {
            VisualizationChartType::Lollipop
        } else if text_eq(s, "漏斗图") {
            VisualizationChartType::Funnel
        } else if text_eq(s, "热力图") {
            VisualizationChartType::Heatmap
        } else {
            VisualizationChartType::Line
        }
    }

    /// The option's label.
    pub fn as_str(&self) -> (r: &'static str)
        ensures
            r@ == visualization_chart_type_label(*self),
    {
        match self {
            VisualizationChartType::Line => "折线图",
            VisualizationChartType::Area => "面积图",
            VisualizationChartType::Scatter => "散点图",
            VisualizationChartType::Bar => "柱状图",
            VisualizationChartType::Histogram => "直方图",
            VisualizationChartType::Pie => "饼图",
            VisualizationChartType::Box => "箱线图",
            VisualizationChartType::Violin => "小提琴图",
            VisualizationChartType::Lollipop => "棒棒糖图",
            VisualizationChartType::Funnel => "漏斗图",
            VisualizationChartType::Heatmap => "热力图",
        }
    }
}

/// File format of a rendered chart.
#[derive(Clone, Copy, Debug, PartialEq, Eq, Structural)]
pub enum VisualizationOutputFormat {
    Svg,
    Png,
    Pdf,
}

/// The VisualizationOutputFormat a word names; any other word gives `Svg`.
pub open spec fn visualization_output_format_of(s: Seq<char>) -> VisualizationOutputFormat {
    let w = ascii_upper(trim_spec(s));
    if w == "PNG"@ {
        VisualizationOutputFormat::Png
    } else if w == "PDF"@ {
        VisualizationOutputFormat::Pdf
    } else {
        VisualizationOutputFormat::Svg
    }
}

/// The label of each VisualizationOutputFormat.
pub open spec fn visualization_output_format_label(k: VisualizationOutputFormat) -> Seq<char> {
    match k {
        VisualizationOutputFormat::Svg => "SVG"@,
        VisualizationOutputFormat::Png => "PNG"@,
        VisualizationOutputFormat::Pdf => "PDF"@,
    }
}

impl VisualizationOutputFormat {
    /// Reads the option from its word.
    pub fn from_text(value: &str) -> (r: Self)
        ensures
            r == visualization_output_format_of(value@),
    {
        let w = fold_word_upper(value);
        let s = w.as_str();
        if text_eq(s, "PNG") {
            VisualizationOutputFormat::Png
        } else if text_eq(s, "PDF") {
            VisualizationOutputFormat::Pdf
        } else {
            VisualizationOutputFormat::Svg
        }
    }

    /// The option's label.
    pub fn as_str(&self) -> (r: &'static str)
        ensures
            r@ == visualization_output_format_label(*self),
    {
        match self {
            VisualizationOutputFormat::Svg => "SVG",
            VisualizationOutputFormat::Png => "PNG",
            VisualizationOutputFormat::Pdf => "PDF",
        }
    }
}

/// Colour theme of a chart.
#[derive(Clone, Copy, Debug, PartialEq, Eq, Structural)]
pub enum VisualizationColorTheme {
    EngineeringBlue,
    SignalRed,
    ProcessGreen,
    Amber,
    Violet,
}

/// The VisualizationColorTheme a word names; any other word gives `EngineeringBlue`.
pub open spec fn visualization_color_theme_of(s: Seq<char>) -> VisualizationColorTheme {
    let w = trim_spec(s);
    if w == "信号红"@ {
        VisualizationColorTheme::SignalRed
    } else if w == "过程绿"@ {
        VisualizationColorTheme::ProcessGreen
    } else if w == "琥珀橙"@ {
        VisualizationColorTheme::Amber
    } else if w == "紫罗兰"@ {
        VisualizationColorTheme::Violet
    } else {
        VisualizationColorTheme::EngineeringBlue
    }
}

/// The label of each VisualizationColorTheme.
pub open spec fn visualization_color_theme_label(k: VisualizationColorTheme) -> Seq<char> {
    match k {
        VisualizationColorTheme::EngineeringBlue => "#2563eb"@,
        VisualizationColorTheme::SignalRed => "#dc2626"@,
        VisualizationColorTheme::ProcessGreen => "#0f766e"@,
        VisualizationColorTheme::Amber => "#d97706"@,
        VisualizationColorTheme::Violet => "#7c3aed"@,
    }
}

impl VisualizationColorTheme {
    /// Reads the option from its word.
    pub fn from_text(value: &str) -> (r: Self)
        ensures
            r == visualization_color_theme_of(value@),
    {
        let w = trim(value);
        let s = w.as_str();
        if text_eq(s, "信号红") {
            VisualizationColorTheme::SignalRed
        } else if text_eq(s, "过程绿") {
            VisualizationColorTheme::ProcessGreen
        } else if text_eq(s, "琥珀橙") {
            VisualizationColorTheme::Amber
        } else if text_eq(s, "紫罗兰") {
            VisualizationColorTheme::Violet
        } else {
            VisualizationColorTheme::EngineeringBlue
        }
    }

    /// The option's label.
    pub fn primary(&self) -> (r: &'static str)
        ensures
            r@ == visualization_color_theme_label(*self),
    {
        match self {
            VisualizationColorTheme::EngineeringBlue => "#2563eb",
            VisualizationColorTheme::SignalRed => "#dc2626",
            VisualizationColorTheme::ProcessGreen => "#0f766e",
            VisualizationColorTheme::Amber => "#d97706",
            VisualizationColorTheme::Violet => "#7c3aed",
        }
    }
}

} // verus!
