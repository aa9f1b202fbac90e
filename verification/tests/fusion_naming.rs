use data_workbench::error::TableError;
use data_workbench::fusion::{
    count_non_empty, dataset_alias, guess_role_label, is_non_empty, join_or_default, looks_like_time_name,
    map_secondary_column, map_secondary_keys, normalize_name, output_bindings, resolve_required_keys, resolve_required_time,
    output_field_names, unique_output_name,
};
use data_workbench::model::{DataTable, LogicalType, TableColumn};

fn table(names: &[&str]) -> DataTable {
    DataTable {
        columns: names
            .iter()
            .map(|n| TableColumn { name: n.to_string(), logical_type: LogicalType::Text, values: vec![] })
            .collect(),
    }
}

#[test]
fn normalized_names_keep_lowercase_letters_and_digits() {
    assert_eq!(normalize_name("Device-ID_2"), "deviceid2");
    assert_eq!(normalize_name("温度 (℃)"), "温度");
    assert_eq!(normalize_name("ÄÖ Ü"), "äöü");
}

#[test]
fn unique_names_take_the_first_free_suffix() {
    let mut seen = Vec::new();
    assert_eq!(unique_output_name(" speed ", &mut seen), "speed");
    assert_eq!(unique_output_name("SPEED", &mut seen), "SPEED_2");
    assert_eq!(unique_output_name("speed", &mut seen), "speed_3");
    assert_eq!(unique_output_name("   ", &mut seen), "fusion_field");
    assert_eq!(seen, vec!["speed".to_string(), "speed2".to_string(), "speed3".to_string(), "fusionfield".to_string()]);
}

#[test]
fn secondary_columns_match_by_normalized_name() {
    let t = table(&["Device ID", "ts", "device_id"]);
    assert_eq!(map_secondary_column(&t, "device-id"), Ok("Device ID".to_string()));
    assert_eq!(
        map_secondary_column(&t, "time"),
        Err(TableError::NoMatchingColumn("time".to_string()))
    );
    assert_eq!(
        map_secondary_keys(&t, &vec!["DEVICEID".to_string(), "TS".to_string()]),
        Ok(vec!["Device ID".to_string(), "ts".to_string()])
    );
    assert_eq!(
        map_secondary_keys(&t, &vec!["ts".to_string(), "x".to_string(), "y".to_string()]),
        Err(TableError::NoMatchingColumn("x".to_string()))
    );
}

#[test]
fn required_keys_and_time_are_checked() {
    let t = table(&["id", "time"]);
    assert_eq!(
        resolve_required_keys(&t, &vec![" id ".to_string(), " ".to_string()]),
        Ok(vec!["id".to_string()])
    );
    assert_eq!(resolve_required_keys(&t, &vec!["  ".to_string()]), Err(TableError::ObjectKeysRequired));
    assert_eq!(
        resolve_required_keys(&t, &vec!["id".to_string(), "batch".to_string()]),
        Err(TableError::MissingObjectKey("batch".to_string()))
    );
    assert_eq!(resolve_required_time(&t, " time "), Ok("time".to_string()));
    assert_eq!(resolve_required_time(&t, ""), Err(TableError::TimeColumnRequired));
    assert_eq!(resolve_required_time(&t, "ts"), Err(TableError::MissingTimeColumn("ts".to_string())));
}

#[test]
fn aliases_roles_and_time_names() {
    assert_eq!(dataset_alias(3, "__Sensor Data (A)__"), "s3_sensor_data__a");
    assert_eq!(dataset_alias(-1, "传感"), "s-1");
    assert_eq!(guess_role_label("Line_SENSOR_01"), "传感采样");
    assert_eq!(guess_role_label("设备状态表"), "设备状态");
    assert_eq!(guess_role_label("试验工况"), "试验工况");
    assert_eq!(guess_role_label("misc"), "工程数据");
    assert!(looks_like_time_name("Time-Stamp"));
    assert!(looks_like_time_name("采样时间"));
    assert!(!looks_like_time_name("speed"));
}

#[test]
fn joins_and_counts() {
    assert_eq!(join_or_default(&vec![], "无"), "无");
    assert_eq!(join_or_default(&vec!["a".to_string(), "b".to_string()], "无"), "a | b");
    assert!(is_non_empty(Some(" x ")));
    assert!(!is_non_empty(Some("  ")));
    assert!(!is_non_empty(None));
    assert_eq!(count_non_empty(&vec![Some("a".to_string()), None, Some(" ".to_string()), Some("b".to_string())]), 2);
}

#[test]
fn secondary_fields_skip_alignment_columns_and_find_overlaps() {
    let primary = table(&["Device ID", "temp", "TEMP", "note"]);
    let secondary = table(&["device_id", "ts", "Temp", "extra"]);
    let bindings = output_bindings(&secondary, &vec!["Device ID".to_string()], "TS", &primary);
    let found = bindings
        .iter()
        .map(|b| (b.source_index, b.output_name.clone(), b.overlaps_primary))
        .collect::<Vec<_>>();
    assert_eq!(found, vec![(2, "Temp".to_string(), Some(2)), (3, "extra".to_string(), None)]);
}

#[test]
fn added_fusion_fields_get_names_no_earlier_field_took() {
    let primary = vec!["Speed".to_string(), "id".to_string()];
    let bases = vec!["speed".to_string(), "speed".to_string(), "temp".to_string()];
    assert_eq!(
        output_field_names(&primary, &bases),
        vec!["speed_2".to_string(), "speed_3".to_string(), "temp".to_string()]
    );
}
