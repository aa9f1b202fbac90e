use data_workbench::error::TableError;
use data_workbench::model::{DataTable, LogicalType, TableColumn};
use data_workbench::rules::{check_rule_columns, check_rule_limits, length_rule_text, time_gap_rule_text};

fn col(name: &str, ty: LogicalType, values: &[Option<&str>]) -> TableColumn {
    TableColumn {
        name: name.to_string(),
        logical_type: ty,
        values: values.iter().map(|v| v.map(|s| s.to_string())).collect(),
    }
}

fn table() -> DataTable {
    DataTable {
        columns: vec![
            col("id", LogicalType::Integer, &[Some("1"), Some("2")]),
            col("site", LogicalType::Text, &[Some("a"), Some("b")]),
            col("when", LogicalType::Text, &[None, Some("2024-01-01 08:00:00")]),
        ],
    }
}

fn plain_table() -> DataTable {
    DataTable { columns: vec![col("id", LogicalType::Integer, &[Some("1")]), col("note", LogicalType::Text, &[Some("x")])] }
}

#[test]
fn rule_columns_are_trimmed_and_must_exist() {
    let t = table();
    let c = check_rule_columns(&t, " id ", "id； site", "", " site", "").unwrap();
    assert_eq!(c.primary_key, "id");
    assert_eq!(c.composite_keys, vec!["id".to_string(), "site".to_string()]);
    assert_eq!(c.time_column, "");
    assert_eq!(c.range_column, "site");
    assert_eq!(check_rule_columns(&t, "nope", "", "", "", "").unwrap_err(), TableError::ColumnNotFound("nope".to_string()));
    assert_eq!(
        check_rule_columns(&t, "id", "site, x", "", "", "").unwrap_err(),
        TableError::ColumnNotFound("x".to_string())
    );
    assert_eq!(check_rule_columns(&t, "id", "", " y ", "", "").unwrap_err(), TableError::ColumnNotFound("y".to_string()));
    assert_eq!(check_rule_columns(&t, "", "site", "", "", "").unwrap_err(), TableError::CompositeKeysTooFew);
    assert!(check_rule_columns(&t, "", ", ;", "", "", "").is_ok());
}

#[test]
fn rule_limits_check_each_rule_in_order() {
    let t = table();
    assert_eq!(check_rule_limits(&t, "", "", false, false, false, "", "", ""), Ok((None, None)));
    assert_eq!(
        check_rule_limits(&t, "", "", false, false, false, "", "abc", ""),
        Err(TableError::InvalidNumber("最大长度".to_string(), "abc".to_string()))
    );
    assert_eq!(
        check_rule_limits(&t, "", "", false, false, false, "", "0", ""),
        Err(TableError::NotPositive("最大长度".to_string()))
    );
    assert_eq!(
        check_rule_limits(&t, "", "", false, false, false, "", "", "-5"),
        Err(TableError::NotPositive("时间间隔".to_string()))
    );
    assert_eq!(check_rule_limits(&t, "", "", true, false, false, "", "", ""), Err(TableError::RangeColumnRequired));
    assert_eq!(check_rule_limits(&t, "", "id", false, false, false, "", "", ""), Err(TableError::RangeBoundRequired));
    assert_eq!(check_rule_limits(&t, "", "id", true, true, true, "", "", ""), Err(TableError::RangeMinAboveMax));
    assert_eq!(check_rule_limits(&t, "", "id", false, true, true, "", "", ""), Ok((None, None)));
    assert_eq!(check_rule_limits(&t, "", "", false, false, false, "", "12", ""), Err(TableError::LengthColumnRequired));
    assert_eq!(check_rule_limits(&t, "", "", false, false, false, "site", "", ""), Err(TableError::LengthLimitRequired));
    assert_eq!(check_rule_limits(&t, "", "", false, false, false, "site", " 12 ", " 30"), Ok((Some(12), Some(30))));
}

#[test]
fn a_time_gap_needs_a_time_column() {
    let t = table();
    assert_eq!(check_rule_limits(&t, "site", "", false, false, false, "", "", "5"), Ok((None, Some(5))));
    assert_eq!(
        check_rule_limits(&t, "missing", "", false, false, false, "", "", "5"),
        Err(TableError::TimeGapNeedsTimeColumn)
    );
    let p = plain_table();
    assert_eq!(check_rule_limits(&p, "", "", false, false, false, "", "", "5"), Err(TableError::TimeGapNeedsTimeColumn));
    let dated = DataTable { columns: vec![col("d", LogicalType::DateTime, &[])] };
    assert_eq!(check_rule_limits(&dated, " ", "", false, false, false, "", "", "5"), Ok((None, Some(5))));
}

#[test]
fn rule_descriptions() {
    assert_eq!(length_rule_text(" note ", Some(20)), "note <= 20");
    assert_eq!(length_rule_text(" ", Some(20)), "未设置");
    assert_eq!(length_rule_text("note", None), "未设置");
    assert_eq!(time_gap_rule_text(Some(15)), "15 分钟");
    assert_eq!(time_gap_rule_text(Some(0)), "未设置");
    assert_eq!(time_gap_rule_text(None), "未设置");
}
