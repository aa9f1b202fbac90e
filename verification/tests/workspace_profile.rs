use data_workbench::datetime::{parse_fusion_moment, DateTimeParts};
use data_workbench::error::TableError;
use data_workbench::fusion::object_key;
use data_workbench::columns::trim_text_values;
use data_workbench::forms::split_csv_like;
use data_workbench::join::{join_counts, pair_rows};
use data_workbench::rows::{deduplicate_rows, drop_empty_rows};
use data_workbench::model::{DataTable, LogicalType, TableColumn};
use data_workbench::ops::{step_note, PipelineOperation};
use data_workbench::options::{JoinConflictStrategy, JoinKind};
use data_workbench::profile::{column_facts, record_column_issues, record_table_issues, QualityOverview};
use data_workbench::quality::QualityIssue;
use data_workbench::session::{
    data_loss_hint, dataset_hint, dataset_snapshot, join_report, merged_dataset_name, options_hint, shape_label,
};
use data_workbench::workspace::Workspace;

fn col(name: &str, ty: LogicalType, values: &[Option<&str>]) -> TableColumn {
    TableColumn {
        name: name.to_string(),
        logical_type: ty,
        values: values.iter().map(|v| v.map(|s| s.to_string())).collect(),
    }
}

fn texts(issues: &[QualityIssue]) -> Vec<(String, String, String, String)> {
    issues
        .iter()
        .map(|i| (i.category.clone(), i.severity.clone(), i.field.clone(), i.detail.clone()))
        .collect()
}

fn finding(category: &str, severity: &str, field: &str, detail: &str) -> (String, String, String, String) {
    (category.to_string(), severity.to_string(), field.to_string(), detail.to_string())
}

#[test]
fn workspace_hands_out_ids_and_moves_the_selection_on_delete() {
    let mut w: Workspace<&str> = Workspace::new();
    assert_eq!(w.selected_id(), None);
    assert_eq!(w.add("a"), 1);
    assert_eq!(w.add("b"), 2);
    assert_eq!(w.add("c"), 3);
    assert_eq!(w.ids(), vec![1, 2, 3]);
    assert_eq!(w.selected_state(), None);
    assert_eq!(w.select(7), Err(TableError::DatasetNotFound(7)));
    assert_eq!(w.select(2), Ok(()));
    assert_eq!(w.selected_state(), Some(&"b"));
    assert_eq!(w.other_ids(), vec![1, 3]);
    assert_eq!(w.delete_selected(), Ok("b"));
    assert_eq!(w.ids(), vec![1, 3]);
    assert_eq!(w.selected_id(), Some(3));
    assert_eq!(w.delete_selected(), Ok("c"));
    assert_eq!(w.selected_id(), Some(1));
    assert_eq!(w.delete_selected(), Ok("a"));
    assert_eq!(w.selected_id(), None);
    assert_eq!(w.delete_selected(), Err(TableError::NoDatasetSelected));
    assert_eq!(w.add("d"), 4);
    assert_eq!(w.get(4), Some(&"d"));
    assert_eq!(w.get(1), None);
}

#[test]
fn workspace_undo_and_redo_act_on_the_selected_dataset() {
    let mut w: Workspace<i32> = Workspace::new();
    assert_eq!(w.record(5), Err(TableError::NoDatasetSelected));
    let first = w.add(10);
    let second = w.add(20);
    assert_eq!(w.select(first), Ok(()));
    assert!(!w.can_undo());
    assert_eq!(w.undo(), Err(TableError::NothingToUndo));
    assert_eq!(w.record(11), Ok(()));
    assert_eq!(w.record(12), Ok(()));
    assert!(w.can_undo());
    assert_eq!(w.undo(), Ok(()));
    assert_eq!(w.selected_state(), Some(&11));
    assert!(w.can_redo());
    assert_eq!(w.redo(), Ok(()));
    assert_eq!(w.selected_state(), Some(&12));
    assert_eq!(w.redo(), Err(TableError::NothingToRedo));
    assert_eq!(w.get(second), Some(&20));
    assert_eq!(w.select(second), Ok(()));
    assert!(!w.can_undo());
}

#[test]
fn replacing_the_current_state_keeps_the_history() {
    let mut w: Workspace<i32> = Workspace::new();
    assert_eq!(w.replace_current(1), Err(TableError::NoDatasetSelected));
    let id = w.add(10);
    assert_eq!(w.select(id), Ok(()));
    assert_eq!(w.record(11), Ok(()));
    assert_eq!(w.replace_current(0), Ok(()));
    assert_eq!(w.selected_state(), Some(&0));
    assert_eq!(w.undo(), Ok(()));
    assert_eq!(w.selected_state(), Some(&10));
    assert_eq!(w.redo(), Ok(()));
    assert_eq!(w.selected_state(), Some(&0));
}

#[test]
fn steps_are_recorded_with_the_note_of_their_kind() {
    assert_eq!(step_note(&PipelineOperation::DropEmptyRows), "删除所有单元格均为空的记录");
    assert_eq!(
        step_note(&PipelineOperation::RenameColumn { from: "a".to_string(), to: "b".to_string() }),
        "手动重命名列"
    );
    assert_eq!(step_note(&PipelineOperation::ApplyMappings { mappings: vec![] }), "根据标准字段字典将别名列统一成工程标准名");
}

#[test]
fn column_facts_count_filled_missing_and_distinct_cells() {
    let id = col("id", LogicalType::Integer, &[Some("1"), Some("2"), Some("3")]);
    let f = column_facts(&id, 3, "", &vec![], "");
    assert_eq!(f.non_null_count, 3);
    assert_eq!(f.missing_count, 0);
    assert_eq!(f.unique_count, 3);
    assert_eq!(f.sample_value, "1");
    assert!(f.is_key_candidate);
    assert!(f.is_numeric);
    assert_eq!(f.role_hint, "主键候选");
    let f = column_facts(&id, 3, "id", &vec![], "");
    assert_eq!(f.role_hint, "主键");

    let city = col("city", LogicalType::Text, &[Some(" a "), None, Some("a"), Some("  ")]);
    let f = column_facts(&city, 4, "", &vec!["city".to_string(), "x".to_string()], "");
    assert_eq!(f.non_null_count, 2);
    assert_eq!(f.missing_count, 2);
    assert_eq!(f.unique_count, 1);
    assert_eq!(f.sample_value, "a");
    assert!(!f.is_key_candidate);
    assert_eq!(f.role_hint, "组合键");

    let when = col("created", LogicalType::Text, &[Some("2024-01-01 10:00:00"), Some("x"), None]);
    let f = column_facts(&when, 3, "", &vec![], "");
    assert!(!f.is_time_candidate);
    assert_eq!(f.role_hint, "普通字段");
    let stamp = col("stamp_date", LogicalType::Text, &[None]);
    let f = column_facts(&stamp, 1, "", &vec![], "");
    assert!(f.is_time_candidate);
    assert_eq!(f.sample_value, "无示例");
    assert_eq!(f.role_hint, "时间字段");
}

#[test]
fn column_findings_are_counted() {
    let mut overview = QualityOverview::empty();
    let mut issues = Vec::new();
    let amount = col("amount", LogicalType::Integer, &[Some("1"), Some("x"), Some("3")]);
    record_column_issues(&amount, &mut overview, &mut issues);
    assert_eq!(overview.numeric_invalid_column_count, 1);
    assert_eq!(overview.mixed_type_column_count, 1);
    assert_eq!(issues.len(), 2);
    assert_eq!(issues[0].category, "类型异常");
    assert_eq!(issues[0].detail, "数值列中检测到 1 个非法字符或不可解析值");
    assert_eq!(issues[1].category, "类型混杂");
    assert_eq!(issues[1].severity, "高");
    let clean = col("name", LogicalType::Text, &[Some("a"), Some("b")]);
    record_column_issues(&clean, &mut overview, &mut issues);
    assert_eq!(overview.numeric_invalid_column_count, 1);
    assert_eq!(issues.len(), 2);
}

#[test]
fn table_findings_report_rows_keys_and_time_order() {
    let table = DataTable {
        columns: vec![
            col("id", LogicalType::Integer, &[Some("1"), Some("1"), None, Some("2"), Some("1")]),
            col("t", LogicalType::Text, &[
                Some("2024-01-02 00:00:00"),
                Some("2024-01-01 00:00:00"),
                None,
                Some("2024-01-03 00:00:00"),
                Some("2024-01-01 00:00:00"),
            ]),
        ],
    };
    let mut overview = QualityOverview::empty();
    overview.range_rule_issue_count = 4;
    let mut issues = Vec::new();
    record_table_issues(&table, "id", &vec![], "t", &mut overview, &mut issues);
    assert_eq!(overview.fully_empty_row_count, 1);
    assert_eq!(overview.duplicate_row_count, 1);
    assert_eq!(overview.primary_key_empty_count, 1);
    assert_eq!(overview.primary_key_duplicate_count, 2);
    assert_eq!(overview.time_order_issue_count, 2);
    assert_eq!(overview.range_rule_issue_count, 4);
    assert_eq!(
        texts(&issues),
        vec![
            finding("空记录", "中", "整表", "检测到 1 行整行缺失记录"),
            finding("重复记录", "中", "整表", "检测到 1 行完全重复记录"),
            finding("主键规则", "高", "id", "主键列存在 1 个空值"),
            finding("主键重复", "高", "id", "按指定主键检测到 2 行重复记录"),
            finding("时间规则", "中", "t", "时间序列中检测到 2 处逆序或异常跳变"),
        ]
    );
}

#[test]
fn snapshots_and_hints_read_the_profile() {
    assert_eq!(shape_label(120, 7), "120 行 × 7 列");
    assert_eq!(dataset_hint("id", &vec!["a".to_string()]), "id");
    assert_eq!(dataset_hint("", &vec!["a".to_string(), "b".to_string()]), "a, b");
    assert_eq!(dataset_hint("", &vec![]), "未识别");
    let snap = dataset_snapshot(
        3,
        "sales".to_string(),
        "CSV".to_string(),
        "1.00 KB".to_string(),
        "2024-01-01 00:00:00".to_string(),
        "耗时 5 ms".to_string(),
        String::new(),
        10,
        2,
        "",
        &vec!["order_id".to_string()],
        "ts",
        &vec![],
    );
    assert_eq!(snap.dataset_id, 3);
    assert_eq!(snap.overview, "10 行 × 2 列");
    assert_eq!(snap.key_hint, "order_id");
    assert_eq!(snap.time_hint, "ts");
    assert_eq!(
        options_hint(&vec![(1, "a".to_string()), (-4, "b".to_string())], "可选：", "无"),
        "可选：1=a | -4=b"
    );
    assert_eq!(options_hint(&vec![], "可选：", "无"), "无");
    assert_eq!(merged_dataset_name("l", "r"), "l_merge_r");
}

#[test]
fn join_reports_describe_what_was_lost() {
    assert_eq!(data_loss_hint(JoinKind::Left, 0, 3), "左连接未保留右表未匹配记录 3 条");
    assert_eq!(data_loss_hint(JoinKind::Left, 5, 0), "左连接未发现右表未匹配记录");
    assert_eq!(data_loss_hint(JoinKind::Inner, 2, 0), "内连接丢弃了未匹配记录：左表 2 条，右表 0 条");
    assert_eq!(data_loss_hint(JoinKind::Inner, 0, 0), "内连接全部记录均成功匹配");
    assert_eq!(data_loss_hint(JoinKind::Outer, 0, 1), "外连接已保留未匹配记录，结果中可能出现空值列");
    assert_eq!(data_loss_hint(JoinKind::Outer, 0, 0), "外连接未发现未匹配记录");
    let pairs = vec![(Some(0), Some(1)), (Some(1), None), (None, Some(0)), (Some(2), Some(2)), (None, Some(3))];
    assert_eq!(join_counts(&pairs), (2, 1, 2));
    let report = join_report(2, 1, 2, vec!["x".to_string()], JoinKind::Inner, JoinConflictStrategy::KeepLeftOnly);
    assert_eq!(report.matched_rows, 2);
    assert_eq!(report.conflict_fields, vec!["x".to_string()]);
    assert_eq!(report.conflict_strategy, JoinConflictStrategy::KeepLeftOnly.as_str());
    assert_eq!(report.data_loss_hint, "内连接丢弃了未匹配记录：左表 1 条，右表 2 条");
}

#[test]
fn object_keys_write_missing_cells_as_null() {
    let row = vec![Some("a".to_string()), None, Some("c".to_string())];
    assert_eq!(object_key(&row, &vec![0, 1, 2]), "a|NULL|c");
    assert_eq!(object_key(&row, &vec![2, 7]), "c|NULL");
    assert_eq!(object_key(&row, &vec![]), "");
}

#[test]
fn fusion_moments_read_rfc3339_in_utc_then_plain_patterns() {
    let p = parse_fusion_moment(" 2024-01-02T03:04:05+08:00 ").unwrap();
    assert_eq!(
        p,
        DateTimeParts { year: 2024, month: 1, day: 1, hour: 19, minute: 4, second: 5, nanosecond: 0 }
    );
    let q = parse_fusion_moment("2024-03-05 06:07:08").unwrap();
    assert_eq!((q.year, q.month, q.day, q.hour, q.minute, q.second), (2024, 3, 5, 6, 7, 8));
    assert_eq!(parse_fusion_moment("not a time"), None);
}

fn keys(values: &[&str]) -> Vec<String> {
    values.iter().map(|v| v.to_string()).collect()
}

#[test]
fn joins_pair_equal_keys_and_keep_the_promised_rows() {
    let left = keys(&["a", "b", "c", "a"]);
    let right = keys(&["a", "d", "a"]);
    let inner = pair_rows(&left, &right, JoinKind::Inner);
    assert_eq!(inner, vec![(Some(0), Some(0)), (Some(0), Some(2)), (Some(3), Some(0)), (Some(3), Some(2))]);
    let left_join = pair_rows(&left, &right, JoinKind::Left);
    assert_eq!(
        left_join,
        vec![
            (Some(0), Some(0)),
            (Some(0), Some(2)),
            (Some(1), None),
            (Some(2), None),
            (Some(3), Some(0)),
            (Some(3), Some(2)),
        ]
    );
    let outer = pair_rows(&left, &right, JoinKind::Outer);
    assert_eq!(outer.len(), 7);
    assert_eq!(outer[6], (None, Some(1)));
    for (l, r) in outer.iter().copied() {
        if let (Some(i), Some(j)) = (l, r) {
            assert_eq!(left[i], right[j]);
        }
    }
    for i in 0..left.len() {
        assert!(outer.iter().any(|p| p.0 == Some(i)));
    }
    for j in 0..right.len() {
        assert!(outer.iter().any(|p| p.1 == Some(j)));
    }
}

fn same_table(a: &DataTable, b: &DataTable) -> bool {
    a.columns.len() == b.columns.len()
        && a.columns.iter().zip(b.columns.iter()).all(|(x, y)| {
            x.name == y.name && x.logical_type == y.logical_type && x.values == y.values
        })
}

#[test]
fn cleaning_twice_changes_nothing_more() {
    let t = DataTable {
        columns: vec![
            col("a", LogicalType::Text, &[Some(" x "), Some("x"), Some("  "), None, Some("x ")]),
            col("b", LogicalType::Integer, &[Some("1"), Some("1"), None, None, Some("1")]),
        ],
    };
    let once = trim_text_values(&t);
    assert!(same_table(&trim_text_values(&once), &once));
    let kept = drop_empty_rows(&once);
    assert_eq!(kept.height(), 3);
    let distinct = deduplicate_rows(&kept);
    assert_eq!(distinct.height(), 1);
    assert!(same_table(&deduplicate_rows(&distinct), &distinct));
    for entry in split_csv_like(" a ,, b ；  ；c ") {
        assert!(!entry.is_empty());
        assert_eq!(entry.trim(), entry);
    }
}
