use data_workbench::error::TableError;
use data_workbench::json::{load_json_text, parse_json_table, JsonNode};
use data_workbench::loader::{
    build_table, decode_text_bytes, guess_delimiter, parse_csv_table, path_stem_or_default, sheet_table,
    xlsx_dataset_name, FileFormat,
};
use data_workbench::model::{DataTable, LogicalType};
use data_workbench::schema::normalize_headers;

fn s(v: &str) -> Option<String> {
    Some(v.to_string())
}

fn cells(t: &DataTable, name: &str) -> Vec<Option<String>> {
    t.columns.iter().find(|c| c.name == name).unwrap().values.clone()
}

#[test]
fn file_format_follows_extension_in_any_case() {
    assert_eq!(FileFormat::from_path("data/report.CSV"), Ok(FileFormat::Csv));
    assert_eq!(FileFormat::from_path("x.json"), Ok(FileFormat::Json));
    assert_eq!(FileFormat::from_path("/a/b/book.Xlsx"), Ok(FileFormat::Xlsx));
    assert_eq!(FileFormat::from_path("notes.txt"), Err(TableError::UnsupportedFileType));
    assert_eq!(FileFormat::from_path("csv"), Err(TableError::UnsupportedFileType));
    assert_eq!(FileFormat::Json.as_str(), "JSON");
}

#[test]
fn dataset_names_come_from_the_file_stem() {
    assert_eq!(path_stem_or_default("/tmp/sales.2024.csv", "csv_dataset"), "sales.2024");
    assert_eq!(path_stem_or_default("", "csv_dataset"), "csv_dataset");
    assert_eq!(xlsx_dataset_name("/d/Book.xlsx", "book"), "Book");
    assert_eq!(xlsx_dataset_name("/d/Book.xlsx", "Sheet1"), "Book[Sheet1]");
}

#[test]
fn delimiter_is_the_most_frequent_candidate() {
    assert_eq!(guess_delimiter("a;b;c\n1;2;3\n"), b';');
    assert_eq!(guess_delimiter("a,b\n\n   \n1,2"), b',');
    assert_eq!(guess_delimiter("a\tb\tc\r\n1\t2\t3"), b'\t');
}

#[test]
fn delimiter_ties_go_to_the_later_candidate() {
    assert_eq!(guess_delimiter(""), b'|');
    assert_eq!(guess_delimiter("a\tb|c"), b'|');
    assert_eq!(guess_delimiter("a,b;c"), b';');
}

#[test]
fn delimiter_reads_only_twelve_non_blank_lines() {
    let mut text = String::new();
    for _ in 0..12 {
        text.push_str("a,b\n\n");
    }
    text.push_str("x;y;z;w;v;u;t;s;r;q;p;o;n;m\n");
    assert_eq!(guess_delimiter(&text), b',');
}

#[test]
fn bytes_decode_as_utf8_or_else_gbk() {
    assert_eq!(decode_text_bytes("数据,表".as_bytes()), "数据,表");
    let (gbk, _, _) = encoding_rs::GBK.encode("温度,压力");
    assert!(std::str::from_utf8(&gbk).is_err());
    assert_eq!(decode_text_bytes(&gbk), "温度,压力");
}

#[test]
fn csv_bytes_become_a_typed_table() {
    let t = parse_csv_table(b"Name,Age\nann, 3\nbob,NA\ncid\n").unwrap();
    assert_eq!(t.column_names(), vec!["name".to_string(), "age".to_string()]);
    assert_eq!(cells(&t, "age"), vec![s("3"), None, None]);
    assert_eq!(cells(&t, "name"), vec![s("ann"), s("bob"), s("cid")]);
    assert_eq!(t.columns[1].logical_type, LogicalType::Integer);
}

#[test]
fn csv_with_semicolons_and_extra_fields() {
    let t = parse_csv_table(b"a;b\n1;2;3\n").unwrap();
    assert_eq!(t.column_names(), vec!["a".to_string(), "b".to_string(), "column_3".to_string()]);
    assert_eq!(cells(&t, "column_3"), vec![s("3")]);
}

#[test]
fn build_table_pads_headers_and_rows() {
    let t = build_table(
        vec!["A b".to_string(), "".to_string(), "a_b".to_string()],
        vec![vec![s("1")], vec![s("2"), s("x"), None, s("z")]],
    );
    assert_eq!(
        t.column_names(),
        vec!["a_b".to_string(), "column_2".to_string(), "a_b_2".to_string(), "column_4".to_string()]
    );
    assert_eq!(cells(&t, "column_4"), vec![None, s("z")]);
    assert_eq!(t.columns[0].logical_type, LogicalType::Integer);
}

#[test]
fn sheet_rows_become_a_table() {
    let rows = vec![
        vec!["A".to_string(), "B".to_string()],
        vec!["1".to_string(), "x".to_string()],
        vec!["2".to_string(), "null".to_string()],
    ];
    let t = sheet_table(&rows).unwrap();
    assert_eq!(t.column_names(), vec!["a".to_string(), "b".to_string()]);
    assert_eq!(cells(&t, "b"), vec![s("x"), None]);
    assert!(sheet_table(&Vec::new()).is_none());
    assert!(sheet_table(&vec![Vec::new()]).is_none());
}

fn text(v: &str) -> JsonNode {
    JsonNode::Text(v.to_string())
}

#[test]
fn json_objects_flatten_with_dotted_sorted_keys() {
    let inner = JsonNode::Object(vec![("x".to_string(), text(" hi "))], "{\"x\":\" hi \"}".to_string());
    let root = JsonNode::Object(
        vec![("b".to_string(), JsonNode::Number("1".to_string())), ("a".to_string(), inner)],
        String::new(),
    );
    let t = parse_json_table(root).unwrap();
    assert_eq!(t.column_names(), vec!["a.x".to_string(), "b".to_string()]);
    assert_eq!(cells(&t, "a.x"), vec![s("hi")]);
    assert_eq!(cells(&t, "b"), vec![s("1")]);
}

#[test]
fn json_arrays_of_records_fill_missing_keys() {
    let first = JsonNode::Object(
        vec![
            ("id".to_string(), JsonNode::Number("1".to_string())),
            (
                "tags".to_string(),
                JsonNode::Array(vec![text("a"), JsonNode::Null, JsonNode::Bool(true)], "[\"a\",null,true]".to_string()),
            ),
        ],
        String::new(),
    );
    let second = JsonNode::Object(
        vec![
            ("id".to_string(), JsonNode::Number("2".to_string())),
            (
                "deep".to_string(),
                JsonNode::Array(vec![JsonNode::Object(Vec::new(), "{}".to_string())], "[{}]".to_string()),
            ),
            ("note".to_string(), text("N/A")),
        ],
        String::new(),
    );
    let t = parse_json_table(JsonNode::Array(vec![first, second], String::new())).unwrap();
    assert_eq!(
        t.column_names(),
        vec!["deep".to_string(), "id".to_string(), "note".to_string(), "tags".to_string()]
    );
    assert_eq!(cells(&t, "tags"), vec![s("a; true"), None]);
    assert_eq!(cells(&t, "deep"), vec![None, s("[{}]")]);
    assert_eq!(cells(&t, "note"), vec![None, None]);
    assert_eq!(cells(&t, "id"), vec![s("1"), s("2")]);
}

#[test]
fn json_root_must_be_object_or_array() {
    assert!(matches!(parse_json_table(JsonNode::Bool(true)), Err(TableError::JsonRootNotContainer)));
    assert!(matches!(parse_json_table(text("x")), Err(TableError::JsonRootNotContainer)));
}

#[test]
fn generated_suffixes_skip_names_already_taken() {
    let headers = vec!["a_2".to_string(), "a".to_string(), "a".to_string()];
    assert_eq!(
        normalize_headers(&headers),
        vec!["a_2".to_string(), "a".to_string(), "a_3".to_string()]
    );
    let blanks = vec!["".to_string(), "column_1".to_string()];
    assert_eq!(normalize_headers(&blanks), vec!["column_1".to_string(), "column_1_2".to_string()]);
}

#[test]
fn json_text_is_parsed_then_flattened() {
    let t = load_json_text("[{\"a\": 1}, {\"b\": \"x\"}]").unwrap();
    assert_eq!(t.column_names(), vec!["a".to_string(), "b".to_string()]);
    assert_eq!(cells(&t, "a"), vec![s("1"), None]);
    assert_eq!(cells(&t, "b"), vec![None, s("x")]);
    assert!(matches!(load_json_text("{not json"), Err(TableError::JsonUnreadable)));
    assert!(matches!(load_json_text("3"), Err(TableError::JsonRootNotContainer)));
}
