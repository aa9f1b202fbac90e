use data_workbench::columns::{convert_timestamp_to_datetime, normalize_datetime_format, transform_text_case};
use data_workbench::datetime::{date_to_text, datetime_to_text, DateTimeParts};
use data_workbench::model::{DataTable, LogicalType, TableColumn};
use data_workbench::options::TextCaseMode;
use data_workbench::timecols::{extract_year_to_column, shift_datetime_by_minutes};

fn one(values: &[Option<&str>]) -> DataTable {
    DataTable {
        columns: vec![TableColumn {
            name: "t".to_string(),
            logical_type: LogicalType::Text,
            values: values.iter().map(|v| v.map(|s| s.to_string())).collect(),
        }],
    }
}

fn s(v: &str) -> Option<String> {
    Some(v.to_string())
}

#[test]
fn text_case_uses_unicode_mappings() {
    let t = one(&[Some("straße"), None, Some("ÀbC")]);
    let up = transform_text_case(&t, "t", &TextCaseMode::Upper).unwrap();
    assert_eq!(up.columns[0].values, vec![s("STRASSE"), None, s("ÀBC")]);
    let low = transform_text_case(&t, "t", &TextCaseMode::Lower).unwrap();
    assert_eq!(low.columns[0].values, vec![s("straße"), None, s("àbc")]);
}

#[test]
fn datetimes_are_rewritten_in_one_format() {
    let t = one(&[Some("2024/01/02 03:04:05"), Some(" 20240102 "), Some("1700000000"), Some("abc"), None]);
    let n = normalize_datetime_format(&t, "t").unwrap();
    assert_eq!(
        n.columns[0].values,
        vec![s("2024-01-02 03:04:05"), s("2024-01-02 00:00:00"), s("2023-11-14 22:13:20"), s("abc"), None]
    );
    assert_eq!(n.columns[0].logical_type, LogicalType::DateTime);
}

#[test]
fn timestamps_in_milliseconds_are_converted() {
    let t = one(&[Some("1700000000000"), Some("2024-01-02"), Some("-1")]);
    let n = convert_timestamp_to_datetime(&t, "t").unwrap();
    assert_eq!(n.columns[0].values, vec![s("2023-11-14 22:13:20"), s("2024-01-02"), s("1969-12-31 23:59:59")]);
}

#[test]
fn shifting_crosses_midnight() {
    let t = one(&[Some("2024-01-02 23:30:00"), Some("x")]);
    let n = shift_datetime_by_minutes(&t, "t", 90).unwrap();
    assert_eq!(n.columns[0].values, vec![s("2024-01-03 01:00:00"), s("x")]);
}

#[test]
fn year_is_extracted_into_a_new_column() {
    let t = one(&[Some("2024-05-06 07:08:09"), Some("nope"), None]);
    let n = extract_year_to_column(&t, "t", "year").unwrap();
    assert_eq!(n.columns[1].name, "year");
    assert_eq!(n.columns[1].values, vec![s("2024"), None, None]);
    assert_eq!(n.columns[1].logical_type, LogicalType::Integer);
}

#[test]
fn moments_print_zero_padded() {
    let p = DateTimeParts { year: 99, month: 3, day: 5, hour: 7, minute: 8, second: 9, nanosecond: 0 };
    assert_eq!(datetime_to_text(p), Some("0099-03-05 07:08:09".to_string()));
    assert_eq!(date_to_text(p), Some("0099-03-05".to_string()));
    let bad = DateTimeParts { year: 2023, month: 2, day: 30, hour: 0, minute: 0, second: 0, nanosecond: 0 };
    assert_eq!(date_to_text(bad), None);
}
