use data_workbench::columns::{fill_null_backward, fill_null_forward, truncate_text};
use data_workbench::error::TableError;
use data_workbench::model::{DataTable, LogicalType, TableColumn};
use data_workbench::rows::{
    deduplicate_rows, drop_empty_rows, drop_row_range, drop_rows_not_contains, drop_rows_with_missing,
    filter_rows_contains, keep_row_range, keep_rows_with_missing, keep_top_rows,
};
use data_workbench::schema::{add_row_number_column, merge_columns, rename_column};
use data_workbench::timecols::sort_by_column;

fn col(name: &str, ty: LogicalType, values: &[Option<&str>]) -> TableColumn {
    TableColumn {
        name: name.to_string(),
        logical_type: ty,
        values: values.iter().map(|v| v.map(|s| s.to_string())).collect(),
    }
}

fn cells(t: &DataTable, name: &str) -> Vec<Option<String>> {
    t.columns.iter().find(|c| c.name == name).unwrap().values.clone()
}

fn s(v: &str) -> Option<String> {
    Some(v.to_string())
}

fn sample() -> DataTable {
    DataTable {
        columns: vec![
            col("id", LogicalType::Integer, &[Some("3"), Some("1"), None, Some("2"), Some("1")]),
            col("name", LogicalType::Text, &[Some("c"), Some("a"), Some(" "), Some("b"), Some("a")]),
        ],
    }
}

#[test]
fn drop_empty_rows_removes_blank_rows_only() {
    let t = drop_empty_rows(&sample());
    assert_eq!(t.height(), 4);
    assert_eq!(cells(&t, "name"), vec![s("c"), s("a"), s("b"), s("a")]);
}

#[test]
fn deduplicate_rows_keeps_first_occurrence() {
    let t = deduplicate_rows(&sample());
    assert_eq!(cells(&t, "id"), vec![s("3"), s("1"), None, s("2")]);
}

#[test]
fn keep_row_range_is_one_based_and_inclusive() {
    let t = keep_row_range(&sample(), 2, 3).unwrap();
    assert_eq!(cells(&t, "id"), vec![s("1"), None]);
    let t = keep_row_range(&sample(), 4, 99).unwrap();
    assert_eq!(cells(&t, "id"), vec![s("2"), s("1")]);
    assert!(matches!(keep_row_range(&sample(), 0, 2), Err(TableError::InvalidRowRange)));
    assert!(matches!(keep_row_range(&sample(), 3, 2), Err(TableError::InvalidRowRange)));
}

#[test]
fn keep_top_rows_refuses_zero() {
    assert!(matches!(keep_top_rows(&sample(), 0), Err(TableError::ZeroCount)));
    assert_eq!(keep_top_rows(&sample(), 2).unwrap().height(), 2);
    assert_eq!(keep_top_rows(&sample(), 50).unwrap().height(), 5);
}

#[test]
fn rename_column_trims_the_new_name() {
    let t = rename_column(&sample(), "name", "  label ").unwrap();
    assert_eq!(t.column_names(), vec!["id".to_string(), "label".to_string()]);
    assert!(matches!(rename_column(&sample(), "missing", "x"), Err(TableError::ColumnNotFound(n)) if n == "missing"));
    assert!(matches!(rename_column(&sample(), "name", "  "), Err(TableError::EmptyColumnName)));
}

#[test]
fn merge_columns_joins_trimmed_parts() {
    let t = merge_columns(&sample(), &vec!["id".to_string(), "name".to_string()], "both", "-").unwrap();
    assert_eq!(cells(&t, "both"), vec![s("3-c"), s("1-a"), None, s("2-b"), s("1-a")]);
    assert!(matches!(
        merge_columns(&sample(), &vec!["id".to_string()], "both", "-"),
        Err(TableError::TooFewColumns)
    ));
    assert!(matches!(
        merge_columns(&sample(), &vec!["id".to_string(), "name".to_string()], "id", "-"),
        Err(TableError::ColumnExists(n)) if n == "id"
    ));
}

#[test]
fn add_row_number_column_counts_from_start() {
    let t = add_row_number_column(&sample(), "no", 10).unwrap();
    assert_eq!(cells(&t, "no"), vec![s("10"), s("11"), s("12"), s("13"), s("14")]);
    assert_eq!(t.columns[2].logical_type, LogicalType::Integer);
}

#[test]
fn fill_forward_and_backward_copy_neighbours() {
    let t = DataTable { columns: vec![col("v", LogicalType::Text, &[None, Some("x"), Some(""), None, Some("y"), None])] };
    assert_eq!(cells(&fill_null_forward(&t, "v").unwrap(), "v"), vec![None, s("x"), s("x"), s("x"), s("y"), s("y")]);
    assert_eq!(cells(&fill_null_backward(&t, "v").unwrap(), "v"), vec![s("x"), s("x"), s("y"), s("y"), s("y"), None]);
}

#[test]
fn truncate_text_keeps_leading_characters() {
    let t = DataTable { columns: vec![col("v", LogicalType::Text, &[Some("数据工作台"), None, Some("ab")])] };
    assert_eq!(cells(&truncate_text(&t, "v", 2).unwrap(), "v"), vec![s("数据"), None, s("ab")]);
    assert!(matches!(truncate_text(&t, "v", 0), Err(TableError::ZeroLength)));
}

#[test]
fn sort_by_integer_column_puts_missing_last() {
    let t = sort_by_column(&sample(), "id", true).unwrap();
    assert_eq!(cells(&t, "id"), vec![s("1"), s("1"), s("2"), s("3"), None]);
    let t = sort_by_column(&sample(), "id", false).unwrap();
    assert_eq!(cells(&t, "id"), vec![None, s("3"), s("2"), s("1"), s("1")]);
    assert_eq!(cells(&t, "name"), vec![s(" "), s("c"), s("b"), s("a"), s("a")]);
}

#[test]
fn keyword_deletion_keeps_matching_rows_and_missing_filters_split() {
    let t = sample();
    let kept = filter_rows_contains(&t, "name", " A ").unwrap();
    let after_delete = drop_rows_not_contains(&t, "name", " A ").unwrap();
    assert_eq!(kept.height(), 2);
    assert_eq!(cells(&after_delete, "name"), cells(&kept, "name"));
    assert_eq!(cells(&after_delete, "id"), cells(&kept, "id"));
    assert!(matches!(drop_rows_not_contains(&t, "nope", "a"), Err(TableError::ColumnNotFound(_))));
    assert!(matches!(drop_rows_not_contains(&t, "name", " "), Err(TableError::MissingColumnOrKeyword)));

    let with_missing = keep_rows_with_missing(&t, &vec!["id".to_string()]).unwrap();
    let without_missing = drop_rows_with_missing(&t, &vec!["id".to_string()]).unwrap();
    assert_eq!(with_missing.height(), 1);
    assert_eq!(with_missing.height() + without_missing.height(), t.height());

    let inside = keep_row_range(&t, 2, 9).unwrap();
    let outside = drop_row_range(&t, 2, 9).unwrap();
    assert_eq!(inside.height(), 4);
    assert_eq!(inside.height() + outside.height(), t.height());
}
