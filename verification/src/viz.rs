//! Chart field suggestions and the plain choices around charts: which columns
//! suit which axis, labels and fallbacks, palette colours.

use vstd::prelude::*;
use crate::model::{ColumnView, DataTable, LogicalType};
use crate::options::{
    visualization_chart_type_label, VisualizationChartType, VisualizationColorTheme,
};
use crate::rows::positions_where;
use crate::text::{concat, is_blank, join_spec, join_texts, text_eq, trim, trim_spec};

verus! {

/// Fields suggested for a chart.
#[derive(Clone, Debug)]
pub struct VisualizationFieldSuggestion {
    pub title: String,
    pub x_label: String,
    pub y_label: String,
    pub x_column: String,
    pub y_column: String,
    pub category_column: String,
    pub value_column: String,
    pub group_column: String,
    pub matrix_columns: Vec<String>,
    pub summary: String,
}

/// Abstract value of a suggestion.
#[verifier::ext_equal]
pub struct SuggestionView {
    pub title: Seq<char>,
    pub x_label: Seq<char>,
    pub y_label: Seq<char>,
    pub x_column: Seq<char>,
    pub y_column: Seq<char>,
    pub category_column: Seq<char>,
    pub value_column: Seq<char>,
    pub group_column: Seq<char>,
    pub matrix_columns: Seq<Seq<char>>,
    pub summary: Seq<char>,
}

impl View for VisualizationFieldSuggestion {
    type V = SuggestionView;

    open spec fn view(&self) -> SuggestionView {
        SuggestionView {
            title: self.title@,
            x_label: self.x_label@,
            y_label: self.y_label@,
            x_column: self.x_column@,
            y_column: self.y_column@,
            category_column: self.category_column@,
            value_column: self.value_column@,
            group_column: self.group_column@,
            matrix_columns: self.matrix_columns.deep_view(),
            summary: self.summary@,
        }
    }
}

/// A marker shape of a scatter chart.
#[derive(Clone, Copy, Debug, PartialEq, Eq, Structural)]
pub enum VisualizationMarkerShape {
    Circle,
    Square,
    Triangle,
    Diamond,
    Cross,
    Plus,
}

/// The marker shape a word names; any other word gives a circle.
pub open spec fn marker_shape_of(s: Seq<char>) -> VisualizationMarkerShape {
    let w = trim_spec(s);
    if w == "方块"@ {
        VisualizationMarkerShape::Square
    } else if w == "三角"@ {
        VisualizationMarkerShape::Triangle
    } else if w == "菱形"@ {
        VisualizationMarkerShape::Diamond
    } else if w == "十字"@ {
        VisualizationMarkerShape::Cross
    } else if w == "加号"@ {
        VisualizationMarkerShape::Plus
    } else {
        VisualizationMarkerShape::Circle
    }
}

impl VisualizationMarkerShape {
    /// Reads the marker shape from its word.
    pub fn from_text(value: &str) -> (r: Self)
        ensures
            r == marker_shape_of(value@),
    {
        let w = trim(value);
        let s = w.as_str();
        if text_eq(s, "方块") {
            VisualizationMarkerShape::Square
        } else if text_eq(s, "三角") {
            VisualizationMarkerShape::Triangle
        } else if text_eq(s, "菱形") {
            VisualizationMarkerShape::Diamond
        } else if text_eq(s, "十字") {
            VisualizationMarkerShape::Cross
        } else if text_eq(s, "加号") {
            VisualizationMarkerShape::Plus
        } else {
            VisualizationMarkerShape::Circle
        }
    }
}

impl crate::options::VisualizationOutputFormat {
    /// The file extension of the format.
    pub fn extension(&self) -> (r: &'static str)
        ensures
            r@ == match *self {
                crate::options::VisualizationOutputFormat::Svg => "svg"@,
                crate::options::VisualizationOutputFormat::Png => "png"@,
                crate::options::VisualizationOutputFormat::Pdf => "pdf"@,
            },
    {
        match self {
            crate::options::VisualizationOutputFormat::Svg => "svg",
            crate::options::VisualizationOutputFormat::Png => "png",
            crate::options::VisualizationOutputFormat::Pdf => "pdf",
        }
    }
}

/// Names of the columns that satisfy `keep`, in order.
pub open spec fn names_where(t: Seq<ColumnView>, keep: spec_fn(ColumnView) -> bool) -> Seq<Seq<char>> {
    positions_where(t.len(), |c: int| keep(t[c])).map_values(|c: usize| t[c as int].name)
}

/// Whether a column is numeric.
pub open spec fn is_numeric() -> spec_fn(ColumnView) -> bool {
    |c: ColumnView| c.logical_type == LogicalType::Integer || c.logical_type == LogicalType::Float
}

/// Whether a column is typed as date-time.
pub open spec fn is_time() -> spec_fn(ColumnView) -> bool {
    |c: ColumnView| c.logical_type == LogicalType::DateTime
}

/// Whether a column is not numeric.
pub open spec fn is_category() -> spec_fn(ColumnView) -> bool {
    |c: ColumnView| !(c.logical_type == LogicalType::Integer || c.logical_type == LogicalType::Float)
}

/// Whether every column is kept.
pub open spec fn any_column() -> spec_fn(ColumnView) -> bool {
    |c: ColumnView| true
}

/// Names of the columns that satisfy a test.
fn names_with(table: &DataTable, which: u8) -> (r: Vec<String>)
    requires
        which < 4,
    ensures
        r.deep_view() == names_where(
            table@,
            if which == 0 {
                any_column()
            } else if which == 1 {
                is_numeric()
            } else if which == 2 {
                is_time()
            } else {
                is_category()
            },
        ),
{
    let ghost f = if which == 0 {
        any_column()
    } else if which == 1 {
        is_numeric()
    } else if which == 2 {
        is_time()
    } else {
        is_category()
    };
    let ghost keep = |c: int| f(table@[c]);
    let mut out: Vec<String> = Vec::new();
    let mut c: usize = 0;
    while c < table.columns.len()
        invariant
            keep == (|c: int| f(table@[c])),
            f == (if which == 0 {
                any_column()
            } else if which == 1 {
                is_numeric()
            } else if which == 2 {
                is_time()
            } else {
                is_category()
            }),
            0 <= c <= table@.len(),
            out.deep_view() == positions_where(c as nat, keep).map_values(
                |k: usize| table@[k as int].name,
            ),
        decreases table.columns.len() - c,
    {
        let ghost p = positions_where(c as nat, keep);
        assert(positions_where((c + 1) as nat, keep) == if keep(c as int) {
            p.push(c)
        } else {
            p
        });
        let ty = table.columns[c].logical_type;
        let numeric = ty == LogicalType::Integer || ty == LogicalType::Float;
        let take = if which == 0 {
            true
        } else if which == 1 {
            numeric
        } else if which == 2 {
            ty == LogicalType::DateTime
        } else {
            !numeric
        };
        let ghost before = out.deep_view();
        assert(take == keep(c as int));
        if take {
            out.push(table.columns[c].name.clone());
            assert(out.deep_view() =~= before.push(table@[c as int].name));
            assert(out.deep_view() =~= positions_where((c + 1) as nat, keep).map_values(
                |k: usize| table@[k as int].name,
            ));
        } else {
            assert(out.deep_view() =~= positions_where((c + 1) as nat, keep).map_values(
                |k: usize| table@[k as int].name,
            ));
        }
        c += 1;
    }
    out
}

/// Every column name.
pub fn all_columns(table: &DataTable) -> (r: Vec<String>)
    ensures
        r.deep_view() == names_where(table@, any_column()),
{
    names_with(table, 0)
}

/// Names of the numeric columns.
pub fn numeric_columns(table: &DataTable) -> (r: Vec<String>)
    ensures
        r.deep_view() == names_where(table@, is_numeric()),
{
    names_with(table, 1)
}

/// Names of the date-time columns.
pub fn time_columns(table: &DataTable) -> (r: Vec<String>)
    ensures
        r.deep_view() == names_where(table@, is_time()),
{
    names_with(table, 2)
}

/// Names of the non-numeric columns, or of all columns when every column is
/// numeric.
pub open spec fn category_names(t: Seq<ColumnView>) -> Seq<Seq<char>> {
    let c = names_where(t, is_category());
    if c.len() == 0 {
        names_where(t, any_column())
    } else {
        c
    }
}

/// Names of the category columns (see `category_names`).
pub fn category_columns(table: &DataTable) -> (r: Vec<String>)
    ensures
        r.deep_view() == category_names(table@),
{
    let c = names_with(table, 3);
    if c.len() == 0 {
        all_columns(table)
    } else {
        c
    }
}

/// The first text, or the empty text.
pub open spec fn first_or_empty(s: Seq<Seq<char>>) -> Seq<char> {
    if s.len() > 0 {
        s[0]
    } else {
        Seq::empty()
    }
}

/// The first text different from `d`.
pub open spec fn first_other(s: Seq<Seq<char>>, d: Seq<char>) -> Option<Seq<char>>
    decreases s.len(),
{
    if s.len() == 0 {
        None
    } else if s[0] != d {
        Some(s[0])
    } else {
        first_other(s.drop_first(), d)
    }
}

fn first_other_exec(s: &Vec<String>, d: &String) -> (r: Option<String>)
    ensures
        r.deep_view() == first_other(s.deep_view(), d@),
{
    let ghost v = s.deep_view();
    let mut i: usize = 0;
    assert(v.skip(0) =~= v);
    while i < s.len()
        invariant
            v == s.deep_view(),
            0 <= i <= v.len(),
            first_other(v, d@) == first_other(v.skip(i as int), d@),
        decreases s.len() - i,
    {
        assert(v.skip(i as int).drop_first() =~= v.skip(i + 1));
        assert(v.skip(i as int)[0] == s@[i as int]@);
        if !text_eq(s[i].as_str(), d.as_str()) {
            return Some(s[i].clone());
        }
        i += 1;
    }
    None
}

fn first_text(s: &Vec<String>) -> (r: String)
    ensures
        r@ == first_or_empty(s.deep_view()),
{
    if s.len() > 0 {
        s[0].clone()
    } else {
        String::new()
    }
}

/// The value, or the fallback when the value is blank.
pub open spec fn label_or(value: Seq<char>, fallback: Seq<char>) -> Seq<char> {
    if trim_spec(value).len() == 0 {
        fallback
    } else {
        value
    }
}

/// The value, or the fallback when the value is blank.
pub fn choose_label(value: &str, fallback: &str) -> (r: String)
    ensures
        r@ == label_or(value@, fallback@),
{
    if is_blank(value) {
        fallback.to_owned()
    } else {
        value.to_owned()
    }
}

/// The value, or the "nothing chosen" word when the value is blank.
pub fn choose_label_optional(value: &str) -> (r: String)
    ensures
        r@ == label_or(value@, "未选择"@),
{
    choose_label(value, "未选择")
}

/// A chosen field: trimmed, none when blank or the "nothing chosen" word.
pub open spec fn cleaned(value: Seq<char>) -> Option<Seq<char>> {
    let t = trim_spec(value);
    if t.len() == 0 || t == "未选择"@ {
        None
    } else {
        Some(t)
    }
}

/// A chosen field (see `cleaned`).
pub fn cleaned_choice(value: &str) -> (r: Option<String>)
    ensures
        r.deep_view() == cleaned(value@),
{
    let t = trim(value);
    if t.as_str().is_empty() || text_eq(t.as_str(), "未选择") {
        None
    } else {
        Some(t)
    }
}

/// The chosen field, or the fallback.
pub fn fallback_label(value: &str, fallback: &str) -> (r: String)
    ensures
        r@ == match cleaned(value@) {
            Some(t) => t,
            None => fallback@,
        },
{
    match cleaned_choice(value) {
        Some(t) => t,
        None => fallback.to_owned(),
    }
}

/// The colour at `index` of a theme's palette of eight, cycling.
pub open spec fn palette_spec(theme: VisualizationColorTheme, index: nat) -> Seq<char> {
    let k = index % 8;
    match theme {
        VisualizationColorTheme::EngineeringBlue => seq![
            "#2563eb"@, "#60a5fa"@, "#93c5fd"@, "#1d4ed8"@, "#3b82f6"@, "#1e40af"@, "#0ea5e9"@, "#0284c7"@,
        ][k as int],
        VisualizationColorTheme::SignalRed => seq![
            "#dc2626"@, "#f87171"@, "#fca5a5"@, "#b91c1c"@, "#ef4444"@, "#991b1b"@, "#fb7185"@, "#e11d48"@,
        ][k as int],
        VisualizationColorTheme::ProcessGreen => seq![
            "#0f766e"@, "#2dd4bf"@, "#99f6e4"@, "#115e59"@, "#14b8a6"@, "#134e4a"@, "#22c55e"@, "#16a34a"@,
        ][k as int],
        VisualizationColorTheme::Amber => seq![
            "#d97706"@, "#f59e0b"@, "#fcd34d"@, "#b45309"@, "#fbbf24"@, "#92400e"@, "#fb923c"@, "#ea580c"@,
        ][k as int],
        VisualizationColorTheme::Violet => seq![
            "#7c3aed"@, "#8b5cf6"@, "#c4b5fd"@, "#6d28d9"@, "#a78bfa"@, "#5b21b6"@, "#9333ea"@, "#c026d3"@,
        ][k as int],
    }
}

fn pick8(k: usize, c: [&'static str; 8]) -> (r: &'static str)
    requires
        k < 8,
    ensures
        r == c@[k as int],
{
    c[k]
}

/// The colour at `index` of a theme's palette (see `palette_spec`).
pub fn palette_color(theme: &VisualizationColorTheme, index: usize) -> (r: &'static str)
    ensures
        r@ == palette_spec(*theme, index as nat),
{
    let k = index % 8;
    let c: [&'static str; 8] = match theme {
        VisualizationColorTheme::EngineeringBlue => [
            "#2563eb", "#60a5fa", "#93c5fd", "#1d4ed8", "#3b82f6", "#1e40af", "#0ea5e9", "#0284c7",
        ],
        VisualizationColorTheme::SignalRed => [
            "#dc2626", "#f87171", "#fca5a5", "#b91c1c", "#ef4444", "#991b1b", "#fb7185", "#e11d48",
        ],
        VisualizationColorTheme::ProcessGreen => [
            "#0f766e", "#2dd4bf", "#99f6e4", "#115e59", "#14b8a6", "#134e4a", "#22c55e", "#16a34a",
        ],
        VisualizationColorTheme::Amber => [
            "#d97706", "#f59e0b", "#fcd34d", "#b45309", "#fbbf24", "#92400e", "#fb923c", "#ea580c",
        ],
        VisualizationColorTheme::Violet => [
            "#7c3aed", "#8b5cf6", "#c4b5fd", "#6d28d9", "#a78bfa", "#5b21b6", "#9333ea", "#c026d3",
        ],
    };
    pick8(k, c)
}

/// The suggestion's fields, from the table's column roles.
pub open spec fn suggestion_spec(dataset: Seq<char>, t: Seq<ColumnView>, chart: VisualizationChartType) -> SuggestionView {
    let all = names_where(t, any_column());
    let num = names_where(t, is_numeric());
    let time = names_where(t, is_time());
    let cat = category_names(t);
    let first_numeric = first_or_empty(num);
    let second_numeric = if num.len() > 1 {
        num[1]
    } else {
        first_or_empty(num)
    };
    let best = if time.len() > 0 {
        time[0]
    } else if cat.len() > 0 {
        cat[0]
    } else {
        first_or_empty(all)
    };
    let group = match first_other(cat, best) {
        Some(g) => g,
        None => match first_other(all, best) {
            Some(g) => g,
            None => Seq::empty(),
        },
    };
    let matrix = num.take(if num.len() < 6 { num.len() as int } else { 6 });
    let title = dataset + " - "@ + visualization_chart_type_label(chart);
    let none = Seq::<char>::empty();
    let no_columns = Seq::<Seq<char>>::empty();
    match chart {
        VisualizationChartType::Line | VisualizationChartType::Area
        | VisualizationChartType::Scatter | VisualizationChartType::Lollipop => SuggestionView {
            title,
            x_label: label_or(best, "X 轴"@),
            y_label: label_or(second_numeric, "Y 轴"@),
            x_column: best,
            y_column: second_numeric,
            category_column: none,
            value_column: first_numeric,
            group_column: none,
            matrix_columns: no_columns,
            summary: "建议字段：X = "@ + label_or(best, "未选择"@) + "，Y = "@ + label_or(
                second_numeric,
                "未选择"@,
            ),
        },
        VisualizationChartType::Bar | VisualizationChartType::Pie
        | VisualizationChartType::Funnel => SuggestionView {
            title,
            x_label: label_or(best, "分类"@),
            y_label: label_or(first_numeric, "数值"@),
            x_column: none,
            y_column: none,
            category_column: best,
            value_column: first_numeric,
            group_column: none,
            matrix_columns: no_columns,
            summary: "建议字段：分类 = "@ + label_or(best, "未选择"@) + "，数值 = "@ + label_or(
                first_numeric,
                "未选择"@,
            ),
        },
        VisualizationChartType::Histogram => SuggestionView {
            title,
            x_label: label_or(first_numeric, "取值区间"@),
            y_label: "频数"@,
            x_column: none,
            y_column: none,
            category_column: none,
            value_column: first_numeric,
            group_column: none,
            matrix_columns: no_columns,
            summary: "建议字段：数值 = "@ + label_or(first_numeric, "未选择"@),
        },
        VisualizationChartType::Box | VisualizationChartType::Violin => SuggestionView {
            title,
            x_label: label_or(group, "分组"@),
            y_label: label_or(first_numeric, "数值"@),
            x_column: none,
            y_column: none,
            category_column: none,
            value_column: first_numeric,
            group_column: group,
            matrix_columns: no_columns,
            summary: "建议字段：分组 = "@ + label_or(group, "未选择"@) + "，数值 = "@ + label_or(
                first_numeric,
                "未选择"@,
            ),
        },
        VisualizationChartType::Heatmap => SuggestionView {
            title,
            x_label: "字段"@,
            y_label: "记录"@,
            x_column: none,
            y_column: none,
            category_column: none,
            value_column: none,
            group_column: none,
            matrix_columns: matrix,
            summary: if matrix.len() == 0 {
                "建议字段：当前数据集中没有可用于热力图的数值列"@
            } else {
                "建议字段：热力矩阵 = "@ + join_spec(matrix, ", "@)
            },
        },
    }
}

fn join4(a: &str, b: &str, c: &str, d: &str) -> (r: String)
    ensures
        r@ == a@ + b@ + c@ + d@,
{
    let ab = concat(a, b);
    let abc = concat(ab.as_str(), c);
    concat(abc.as_str(), d)
}

/// Suggests chart fields from the table's column roles.
pub fn suggest_fields(
    dataset_name: &str,
    table: &DataTable,
    chart_type: &VisualizationChartType,
) -> (r: VisualizationFieldSuggestion)
    ensures
        r@ == suggestion_spec(dataset_name@, table@, *chart_type),
{
    let all = all_columns(table);
    let num = numeric_columns(table);
    let time = time_columns(table);
    let cat = category_columns(table);
    let first_numeric = first_text(&num);
    let second_numeric = if num.len() > 1 {
        num[1].clone()
    } else {
        first_text(&num)
    };
    let best = if time.len() > 0 {
        time[0].clone()
    } else if cat.len() > 0 {
        cat[0].clone()
    } else {
        first_text(&all)
    };
    let group = match first_other_exec(&cat, &best) {
        Some(g) => g,
        None => match first_other_exec(&all, &best) {
            Some(g) => g,
            None => String::new(),
        },
    };
    let mut matrix: Vec<String> = Vec::new();
    let mut k: usize = 0;
    while k < num.len() && k < 6
        invariant
            0 <= k <= num@.len(),
            k <= 6,
            matrix.deep_view() == num.deep_view().take(k as int),
        decreases num.len() - k,
    {
        let ghost before = matrix.deep_view();
        matrix.push(num[k].clone());
        assert(matrix.deep_view() =~= before.push(num@[k as int]@));
        assert(matrix.deep_view() =~= num.deep_view().take(k + 1));
        k += 1;
    }
    assert(matrix.deep_view() =~= num.deep_view().take(
        if num@.len() < 6 {
            num@.len() as int
        } else {
            6
        },
    ));
    proof {
        let t = table@;
        assert(group@ == match first_other(category_names(t), best@) {
            Some(g) => g,
            None => match first_other(names_where(t, any_column()), best@) {
                Some(g) => g,
                None => Seq::<char>::empty(),
            },
        });
    }
    let title = join4(dataset_name, " - ", chart_type.as_str(), "");
    assert(title@ =~= dataset_name@ + " - "@ + visualization_chart_type_label(*chart_type)) by {
        reveal_strlit("");
    }
    match chart_type {
        VisualizationChartType::Line | VisualizationChartType::Area
        | VisualizationChartType::Scatter | VisualizationChartType::Lollipop => {
            let x = choose_label_optional(best.as_str());
            let y = choose_label_optional(second_numeric.as_str());
            let r = VisualizationFieldSuggestion {
                title,
                x_label: choose_label(best.as_str(), "X 轴"),
                y_label: choose_label(second_numeric.as_str(), "Y 轴"),
                x_column: best.clone(),
                y_column: second_numeric.clone(),
                category_column: String::new(),
                value_column: first_numeric,
                group_column: String::new(),
                matrix_columns: Vec::new(),
                summary: join4("建议字段：X = ", x.as_str(), "，Y = ", y.as_str()),
            };
            assert(r.matrix_columns.deep_view() =~= Seq::<Seq<char>>::empty());
            assert(r@ =~= suggestion_spec(dataset_name@, table@, *chart_type));
            r
        },
        VisualizationChartType::Bar | VisualizationChartType::Pie
        | VisualizationChartType::Funnel => {
            let x = choose_label_optional(best.as_str());
            let y = choose_label_optional(first_numeric.as_str());
            let r = VisualizationFieldSuggestion {
                title,
                x_label: choose_label(best.as_str(), "分类"),
                y_label: choose_label(first_numeric.as_str(), "数值"),
                x_column: String::new(),
                y_column: String::new(),
                category_column: best.clone(),
                value_column: first_numeric.clone(),
                group_column: String::new(),
                matrix_columns: Vec::new(),
                summary: join4("建议字段：分类 = ", x.as_str(), "，数值 = ", y.as_str()),
            };
            assert(r.matrix_columns.deep_view() =~= Seq::<Seq<char>>::empty());
            assert(r@ =~= suggestion_spec(dataset_name@, table@, *chart_type));
            r
        },
        VisualizationChartType::Histogram => {
            let y = choose_label_optional(first_numeric.as_str());
            let r = VisualizationFieldSuggestion {
                title,
                x_label: choose_label(first_numeric.as_str(), "取值区间"),
                y_label: "频数".to_owned(),
                x_column: String::new(),
                y_column: String::new(),
                category_column: String::new(),
                value_column: first_numeric.clone(),
                group_column: String::new(),
                matrix_columns: Vec::new(),
                summary: concat("建议字段：数值 = ", y.as_str()),
            };
            assert(r.matrix_columns.deep_view() =~= Seq::<Seq<char>>::empty());
            assert(r@ =~= suggestion_spec(dataset_name@, table@, *chart_type));
            r
        },
        VisualizationChartType::Box | VisualizationChartType::Violin => {
            let x = choose_label_optional(group.as_str());
            let y = choose_label_optional(first_numeric.as_str());
            let r = VisualizationFieldSuggestion {
                title,
                x_label: choose_label(group.as_str(), "分组"),
                y_label: choose_label(first_numeric.as_str(), "数值"),
                x_column: String::new(),
                y_column: String::new(),
                category_column: String::new(),
                value_column: first_numeric.clone(),
                group_column: group.clone(),
                matrix_columns: Vec::new(),
                summary: join4("建议字段：分组 = ", x.as_str(), "，数值 = ", y.as_str()),
            };
            assert(r.matrix_columns.deep_view() =~= Seq::<Seq<char>>::empty());
            assert(r@ =~= suggestion_spec(dataset_name@, table@, *chart_type));
            r
        },
        VisualizationChartType::Heatmap => {
            let summary = if matrix.len() == 0 {
                "建议字段：当前数据集中没有可用于热力图的数值列".to_owned()
            } else {
                let joined = join_texts(&matrix, ", ");
                concat("建议字段：热力矩阵 = ", joined.as_str())
            };
            let r = VisualizationFieldSuggestion {
                title,
                x_label: "字段".to_owned(),
                y_label: "记录".to_owned(),
                x_column: String::new(),
                y_column: String::new(),
                category_column: String::new(),
                value_column: String::new(),
                group_column: String::new(),
                matrix_columns: matrix,
                summary,
            };
            assert(r@ =~= suggestion_spec(dataset_name@, table@, *chart_type));
            r
        },
    }
}

} // verus!
