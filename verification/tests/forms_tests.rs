use data_workbench::error::TableError;
use data_workbench::forms::{
    apply_fusion_defaults, apply_visualization_suggestion, display_optional_text, parse_dataset_ids, display_optional_vec, display_or_fallback, parse_bounded_usize,
    parse_i64_or_default, parse_logical_type, parse_optional_i64, parse_optional_usize, parse_sort_directions,
    parse_usize_or_default, set_visualization_field, split_csv_like, validate_column_list, validate_optional_column,
    ChartFields, FusionDefaults, FusionForm,
};
use data_workbench::viz::VisualizationFieldSuggestion;
use data_workbench::model::{DataTable, LogicalType, TableColumn};
use data_workbench::options::FusionAlignmentMode;

fn table(names: &[&str]) -> DataTable {
    DataTable {
        columns: names
            .iter()
            .map(|n| TableColumn { name: n.to_string(), logical_type: LogicalType::Text, values: vec![] })
            .collect(),
    }
}

#[test]
fn split_csv_like_mixed_separators() {
    let parts = split_csv_like(" a, b；c ;; ，d ");
    assert_eq!(parts, vec!["a".to_string(), "b".to_string(), "c".to_string(), "d".to_string()]);
    assert!(split_csv_like(" , ;").is_empty());
}

#[test]
fn sort_directions_reuse_last_entry() {
    assert_eq!(parse_sort_directions("desc", 3), vec![false, false, false]);
    assert_eq!(parse_sort_directions("asc, 降序", 3), vec![true, false, false]);
    assert_eq!(parse_sort_directions("DESC,asc", 1), vec![false]);
    assert_eq!(parse_sort_directions("", 2), vec![true, true]);
}

#[test]
fn counts_parse_with_defaults_and_bounds() {
    assert_eq!(parse_usize_or_default(" 42 ", 7), 42);
    assert_eq!(parse_usize_or_default("+5", 7), 5);
    assert_eq!(parse_usize_or_default("-5", 7), 7);
    assert_eq!(parse_usize_or_default("abc", 7), 7);
    assert_eq!(parse_usize_or_default("99999999999999999999999", 7), 7);
    assert_eq!(parse_bounded_usize("500", 12, 1, 100), 100);
    assert_eq!(parse_bounded_usize("0", 12, 1, 100), 1);
    assert_eq!(parse_bounded_usize("x", 12, 1, 100), 12);
    assert_eq!(parse_i64_or_default(" -60 ", 5), -60);
    assert_eq!(parse_i64_or_default("1.5", 5), 5);
}

#[test]
fn optional_numbers_report_their_field() {
    assert_eq!(parse_optional_usize("  ", "最大长度"), Ok(None));
    assert_eq!(parse_optional_usize(" 8 ", "最大长度"), Ok(Some(8)));
    assert_eq!(
        parse_optional_usize("8x", "最大长度"),
        Err(TableError::InvalidNumber("最大长度".to_string(), "8x".to_string()))
    );
    assert_eq!(parse_optional_usize("0", "最大长度"), Err(TableError::NotPositive("最大长度".to_string())));
    assert_eq!(parse_optional_i64("-3", "间隔"), Err(TableError::NotPositive("间隔".to_string())));
    assert_eq!(parse_optional_i64("15", "间隔"), Ok(Some(15)));
    assert_eq!(
        parse_optional_i64("1e3", "间隔"),
        Err(TableError::InvalidNumber("间隔".to_string(), "1e3".to_string()))
    );
}

#[test]
fn chart_fields_fill_only_blank_or_unchosen() {
    assert_eq!(set_visualization_field(false, "", "温度"), Some("温度".to_string()));
    assert_eq!(set_visualization_field(false, " 未选择 ", "温度"), Some("温度".to_string()));
    assert_eq!(set_visualization_field(false, "压力", "温度"), None);
    assert_eq!(set_visualization_field(true, "压力", "温度"), Some("温度".to_string()));
    assert_eq!(set_visualization_field(true, "压力", "  "), Some(String::new()));
    assert_eq!(set_visualization_field(false, "压力", "  "), None);
}

fn suggestion() -> VisualizationFieldSuggestion {
    VisualizationFieldSuggestion {
        title: "温度趋势".to_string(),
        x_label: "时间".to_string(),
        y_label: " ".to_string(),
        x_column: "ts".to_string(),
        y_column: "temp".to_string(),
        category_column: String::new(),
        value_column: "temp".to_string(),
        group_column: String::new(),
        matrix_columns: vec!["temp".to_string(), "pressure".to_string()],
        summary: String::new(),
    }
}

fn chart_form() -> ChartFields {
    ChartFields {
        title: "我的图".to_string(),
        x_label: String::new(),
        y_label: "压力".to_string(),
        x_column: "未选择".to_string(),
        y_column: "pressure".to_string(),
        category_column: "site".to_string(),
        value_column: " ".to_string(),
        group_column: "site".to_string(),
        matrix_columns: String::new(),
    }
}

#[test]
fn chart_suggestions_fill_open_fields_or_overwrite_all() {
    let mut kept = chart_form();
    apply_visualization_suggestion(&mut kept, &suggestion(), false);
    assert_eq!(kept.title, "我的图");
    assert_eq!(kept.x_label, "时间");
    assert_eq!(kept.y_label, "压力");
    assert_eq!(kept.x_column, "ts");
    assert_eq!(kept.y_column, "pressure");
    assert_eq!(kept.category_column, "site");
    assert_eq!(kept.value_column, "temp");
    assert_eq!(kept.group_column, "site");
    assert_eq!(kept.matrix_columns, "temp, pressure");

    let mut all = chart_form();
    apply_visualization_suggestion(&mut all, &suggestion(), true);
    assert_eq!(all.title, "温度趋势");
    assert_eq!(all.y_label, "");
    assert_eq!(all.y_column, "temp");
    assert_eq!(all.category_column, "");
    assert_eq!(all.group_column, "");
    assert_eq!(all.matrix_columns, "temp, pressure");
}

#[test]
fn dataset_ids_skip_entries_that_are_not_i32() {
    assert_eq!(parse_dataset_ids(" 3, x；+4 ;-2, 2147483648 ，7"), vec![3, 4, -2, 7]);
    assert_eq!(parse_dataset_ids(""), Vec::<i32>::new());
}

#[test]
fn logical_types_from_words() {
    assert_eq!(parse_logical_type(" INT "), LogicalType::Integer);
    assert_eq!(parse_logical_type("浮点"), LogicalType::Float);
    assert_eq!(parse_logical_type("Boolean"), LogicalType::Boolean);
    assert_eq!(parse_logical_type("time"), LogicalType::DateTime);
    assert_eq!(parse_logical_type("whatever"), LogicalType::Text);
}

#[test]
fn displays_fall_back_when_blank() {
    assert_eq!(display_or_fallback(" ", "未识别"), "未识别");
    assert_eq!(display_or_fallback(" id", "未识别"), " id");
    assert_eq!(display_optional_text(""), "未设置");
    assert_eq!(display_optional_text("x"), "x");
    assert_eq!(display_optional_vec(&vec![]), "未设置");
    assert_eq!(display_optional_vec(&vec!["a".to_string(), "b".to_string()]), "a, b");
}

#[test]
fn typed_columns_are_validated() {
    let t = table(&["id", "time"]);
    assert_eq!(validate_optional_column(&t, "  "), Ok(()));
    assert_eq!(validate_optional_column(&t, " time "), Ok(()));
    assert_eq!(validate_optional_column(&t, "x"), Err(TableError::ColumnNotFound("x".to_string())));
    assert_eq!(
        validate_column_list(&t, &vec!["id".to_string(), " y ".to_string(), "z".to_string()]),
        Err(TableError::ColumnNotFound("y".to_string()))
    );
    assert_eq!(validate_column_list(&t, &vec!["".to_string(), "id".to_string()]), Ok(()));
}

#[test]
fn fusion_defaults_fill_blank_fields() {
    let mut form = FusionForm {
        secondary_dataset_ids: " ".to_string(),
        object_keys: "device".to_string(),
        time_column: String::new(),
        alignment_mode: "x".to_string(),
        time_window_seconds: "1".to_string(),
        resample_seconds: "1".to_string(),
    };
    let defaults = FusionDefaults {
        secondary_dataset_ids: vec![2, -3],
        object_keys: vec!["id".to_string(), "batch".to_string()],
        time_column: "ts".to_string(),
        alignment_mode: FusionAlignmentMode::NearestWithinWindow,
        time_window_seconds: 5,
        resample_seconds: -60,
    };
    apply_fusion_defaults(&mut form, &defaults);
    assert_eq!(form.secondary_dataset_ids, "2, -3");
    assert_eq!(form.object_keys, "device");
    assert_eq!(form.time_column, "ts");
    assert_eq!(form.alignment_mode, FusionAlignmentMode::NearestWithinWindow.as_str());
    assert_eq!(form.time_window_seconds, "5");
    assert_eq!(form.resample_seconds, "-60");
}
