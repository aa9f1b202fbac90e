use data_workbench::columns::{backward_fill_cells, forward_fill_cells};
use data_workbench::error::TableError;
use data_workbench::expression::{parse_expression, tokenize, ExprToken};
use data_workbench::fusion::{cell_choice, feature_columns, feature_headers, CellChoice};
use data_workbench::loader::{csv_record_cells, format_of_extension_text, FileFormat};
use data_workbench::join::conflict_fields;
use data_workbench::model::{DataTable, LogicalType, TableColumn};
use data_workbench::ops::{apply_operation, operation_fits, PipelineOperation};
use data_workbench::options::{
    AdjacentCompareMode, AggregateFunction, CompareOperator, FusionStrategy, PriorityPlacement, TimeDiffUnit,
};
use data_workbench::rows::{drop_rows_with_missing, keep_rows_with_missing};
use data_workbench::steps::condition_holds;

fn s(v: &str) -> Option<String> {
    Some(v.to_string())
}

fn col(name: &str, logical_type: LogicalType, values: Vec<Option<String>>) -> TableColumn {
    TableColumn { name: name.to_string(), logical_type, values }
}

fn staff() -> DataTable {
    DataTable {
        columns: vec![
            col("dept", LogicalType::Text, vec![s("b"), s("a"), s("b"), s("a")]),
            col("n", LogicalType::Integer, vec![s("2"), s("1"), s("1"), s("3")]),
            col("note", LogicalType::Text, vec![s("Late"), None, s(" "), s("on time")]),
        ],
    }
}

fn cells(t: &DataTable, name: &str) -> Vec<Option<String>> {
    t.columns.iter().find(|c| c.name == name).unwrap().values.clone()
}

fn names(v: &[&str]) -> Vec<String> {
    v.iter().map(|x| x.to_string()).collect()
}

#[test]
fn constant_column_repeats_its_value() {
    let op = PipelineOperation::AddConstantColumn { target: " c ".to_string(), value: "x".to_string() };
    let t = apply_operation(&staff(), &op).unwrap();
    assert_eq!(t.columns.len(), 4);
    assert_eq!(t.columns[3].name, "c");
    assert_eq!(cells(&t, "c"), vec![s("x"); 4]);
    let taken = PipelineOperation::AddConstantColumn { target: "n".to_string(), value: "x".to_string() };
    assert_eq!(apply_operation(&staff(), &taken).unwrap_err(), TableError::ColumnExists("n".to_string()));
    let blank = PipelineOperation::AddConstantColumn { target: " ".to_string(), value: "x".to_string() };
    assert_eq!(apply_operation(&staff(), &blank).unwrap_err(), TableError::EmptyColumnName);
}

#[test]
fn concatenation_joins_every_listed_cell() {
    let op = PipelineOperation::ConcatColumns {
        columns: names(&["note", "dept"]),
        target: "joined".to_string(),
        separator: "-".to_string(),
    };
    let t = apply_operation(&staff(), &op).unwrap();
    assert_eq!(cells(&t, "joined"), vec![s("Late-b"), s("-a"), s(" -b"), s("on time-a")]);
    let unknown = PipelineOperation::ConcatColumns {
        columns: names(&["dept", "zz"]),
        target: "joined".to_string(),
        separator: "-".to_string(),
    };
    assert_eq!(apply_operation(&staff(), &unknown).unwrap_err(), TableError::ColumnNotFound("zz".to_string()));
    let none = PipelineOperation::ConcatColumns { columns: Vec::new(), target: "j".to_string(), separator: String::new() };
    assert_eq!(apply_operation(&staff(), &none).unwrap_err(), TableError::EmptyColumnList);
}

#[test]
fn multi_sort_lets_later_keys_break_ties() {
    let op = PipelineOperation::MultiSort { columns: names(&["dept", "n"]), ascending: vec![true, false] };
    assert!(operation_fits(&staff(), &op));
    let t = apply_operation(&staff(), &op).unwrap();
    assert_eq!(cells(&t, "dept"), vec![s("a"), s("a"), s("b"), s("b")]);
    assert_eq!(cells(&t, "n"), vec![s("3"), s("1"), s("2"), s("1")]);
    let one_flag = PipelineOperation::MultiSort { columns: names(&["n", "dept"]), ascending: vec![true] };
    let t = apply_operation(&staff(), &one_flag).unwrap();
    assert_eq!(cells(&t, "n"), vec![s("1"), s("1"), s("2"), s("3")]);
    assert_eq!(cells(&t, "dept"), vec![s("a"), s("b"), s("b"), s("a")]);
}

#[test]
fn multi_sort_refusals() {
    let empty = PipelineOperation::MultiSort { columns: Vec::new(), ascending: Vec::new() };
    assert_eq!(apply_operation(&staff(), &empty).unwrap_err(), TableError::EmptyColumnList);
    let unknown = PipelineOperation::MultiSort { columns: names(&["dept", "zz"]), ascending: Vec::new() };
    assert_eq!(apply_operation(&staff(), &unknown).unwrap_err(), TableError::ColumnNotFound("zz".to_string()));
    let mut floats = staff();
    floats.columns.push(col("f", LogicalType::Float, vec![s("1.5"), s("0.5"), None, s("2")]));
    let float_key = PipelineOperation::MultiSort { columns: names(&["f"]), ascending: Vec::new() };
    assert_eq!(apply_operation(&floats, &float_key).unwrap_err(), TableError::FloatArithmetic);
}

#[test]
fn rank_column_numbers_the_sorted_rows() {
    let op = PipelineOperation::AddRankColumn { target: "rank".to_string(), columns: names(&["n"]), ascending: vec![false] };
    let t = apply_operation(&staff(), &op).unwrap();
    assert_eq!(cells(&t, "n"), vec![s("3"), s("2"), s("1"), s("1")]);
    assert_eq!(cells(&t, "dept"), vec![s("a"), s("b"), s("a"), s("b")]);
    assert_eq!(cells(&t, "rank"), vec![s("1"), s("2"), s("3"), s("4")]);
    assert_eq!(t.columns[3].logical_type, LogicalType::Integer);
    let taken = PipelineOperation::AddRankColumn { target: "dept".to_string(), columns: names(&["n"]), ascending: Vec::new() };
    assert_eq!(apply_operation(&staff(), &taken).unwrap_err(), TableError::ColumnExists("dept".to_string()));
}

fn conditional(operator: CompareOperator, value: &str) -> PipelineOperation {
    PipelineOperation::AddConditionalColumn {
        target: "flag".to_string(),
        source_column: "note".to_string(),
        operator,
        compare_value: value.to_string(),
        true_value: "Y".to_string(),
        false_value: "N".to_string(),
    }
}

#[test]
fn conditional_column_tests_each_row() {
    let t = apply_operation(&staff(), &conditional(CompareOperator::Eq, " Late ")).unwrap();
    assert_eq!(cells(&t, "flag"), vec![s("Y"), s("N"), s("N"), s("N")]);
    let t = apply_operation(&staff(), &conditional(CompareOperator::NotEq, "Late")).unwrap();
    assert_eq!(cells(&t, "flag"), vec![s("N"), s("Y"), s("Y"), s("Y")]);
    let t = apply_operation(&staff(), &conditional(CompareOperator::Contains, "TIME")).unwrap();
    assert_eq!(cells(&t, "flag"), vec![s("N"), s("N"), s("N"), s("Y")]);
    let t = apply_operation(&staff(), &conditional(CompareOperator::IsEmpty, "")).unwrap();
    assert_eq!(cells(&t, "flag"), vec![s("N"), s("Y"), s("Y"), s("N")]);
    let t = apply_operation(&staff(), &conditional(CompareOperator::Eq, "")).unwrap();
    assert_eq!(cells(&t, "flag"), vec![s("N"), s("Y"), s("Y"), s("N")]);
    assert_eq!(
        apply_operation(&staff(), &conditional(CompareOperator::Greater, "1")).unwrap_err(),
        TableError::FloatArithmetic
    );
}

#[test]
fn condition_holds_leaves_ordering_to_numbers() {
    assert_eq!(condition_holds(&s("Abc"), CompareOperator::Contains, "bC"), Some(true));
    assert_eq!(condition_holds(&None, CompareOperator::IsEmpty, "x"), Some(true));
    assert_eq!(condition_holds(&s("5"), CompareOperator::Less, "9"), None);
}

#[test]
fn priority_sort_moves_matching_rows() {
    let op = PipelineOperation::PrioritySort {
        column: "dept".to_string(),
        operator: CompareOperator::Eq,
        value: "b".to_string(),
        placement: PriorityPlacement::First,
        secondary_columns: names(&["n"]),
        secondary_ascending: vec![true],
    };
    let t = apply_operation(&staff(), &op).unwrap();
    assert_eq!(cells(&t, "dept"), vec![s("b"), s("b"), s("a"), s("a")]);
    assert_eq!(cells(&t, "n"), vec![s("1"), s("2"), s("1"), s("3")]);
    let last = PipelineOperation::PrioritySort {
        column: "dept".to_string(),
        operator: CompareOperator::Eq,
        value: "b".to_string(),
        placement: PriorityPlacement::Last,
        secondary_columns: Vec::new(),
        secondary_ascending: Vec::new(),
    };
    let t = apply_operation(&staff(), &last).unwrap();
    assert_eq!(cells(&t, "n"), vec![s("1"), s("3"), s("2"), s("1")]);
}

#[test]
fn numeric_steps_check_names_and_columns_first() {
    let expression = PipelineOperation::AddExpressionColumn { target: "x".to_string(), expression: "{n} * 2".to_string() };
    assert_eq!(apply_operation(&staff(), &expression).unwrap_err(), TableError::FloatArithmetic);
    let broken = PipelineOperation::AddExpressionColumn { target: "x".to_string(), expression: "{n} *".to_string() };
    assert_eq!(apply_operation(&staff(), &broken).unwrap_err(), TableError::InvalidExpression);
    let taken = PipelineOperation::AddExpressionColumn { target: "n".to_string(), expression: "1".to_string() };
    assert_eq!(apply_operation(&staff(), &taken).unwrap_err(), TableError::ColumnExists("n".to_string()));
    let diff = PipelineOperation::AddTimeDiffColumn {
        start_column: "start".to_string(),
        end_column: "n".to_string(),
        target: "d".to_string(),
        unit: TimeDiffUnit::Hours,
    };
    assert_eq!(apply_operation(&staff(), &diff).unwrap_err(), TableError::ColumnNotFound("start".to_string()));
    let rolling = PipelineOperation::RollingAggregate {
        group_columns: names(&["dept"]),
        order_column: "n".to_string(),
        target_column: "n".to_string(),
        window_size: 0,
        function: AggregateFunction::Sum,
        output_column: "r".to_string(),
    };
    assert_eq!(apply_operation(&staff(), &rolling).unwrap_err(), TableError::ZeroCount);
    let adjacent = PipelineOperation::CompareAdjacent {
        group_columns: names(&["zz"]),
        order_column: "n".to_string(),
        target_column: "n".to_string(),
        mode: AdjacentCompareMode::Difference,
        output_column: "r".to_string(),
    };
    assert_eq!(apply_operation(&staff(), &adjacent).unwrap_err(), TableError::ColumnNotFound("zz".to_string()));
    let cumulative = PipelineOperation::CumulativeSum {
        group_columns: Vec::new(),
        order_column: "n".to_string(),
        target_column: "n".to_string(),
        output_column: "total".to_string(),
    };
    assert_eq!(apply_operation(&staff(), &cumulative).unwrap_err(), TableError::FloatArithmetic);
}

#[test]
fn keeping_and_dropping_missing_rows_partition_the_table() {
    let targets = names(&["note"]);
    let kept = keep_rows_with_missing(&staff(), &targets).unwrap();
    let dropped = drop_rows_with_missing(&staff(), &targets).unwrap();
    assert_eq!(kept.height() + dropped.height(), staff().height());
    assert_eq!(cells(&kept, "n"), vec![s("1"), s("1")]);
    assert_eq!(cells(&dropped, "n"), vec![s("2"), s("3")]);
}

#[test]
fn fusion_cell_choice_follows_the_strategy() {
    assert_eq!(cell_choice(&s("1"), &s(" "), FusionStrategy::SecondaryFirst), CellChoice::Keep);
    assert_eq!(cell_choice(&s("1"), &s("2"), FusionStrategy::SecondaryFirst), CellChoice::Take);
    assert_eq!(cell_choice(&None, &s("2"), FusionStrategy::PrimaryFirst), CellChoice::Take);
    assert_eq!(cell_choice(&s("1"), &s("2"), FusionStrategy::PrimaryFirst), CellChoice::Keep);
    assert_eq!(cell_choice(&s("1"), &s("2"), FusionStrategy::ConflictRetention), CellChoice::Keep);
    assert_eq!(cell_choice(&s("1"), &s("2"), FusionStrategy::NumericAverage), CellChoice::Combine);
    assert_eq!(cell_choice(&s(""), &s("2"), FusionStrategy::ConfidenceWeighted), CellChoice::Take);
}

#[test]
fn cell_lists_fill_from_neighbours() {
    let cells = vec![None, s("a"), s(" "), None, s("b"), None];
    assert_eq!(forward_fill_cells(&cells), vec![None, s("a"), s("a"), s("a"), s("b"), s("b")]);
    assert_eq!(backward_fill_cells(&cells), vec![s("a"), s("a"), s("b"), s("b"), s("b"), None]);
}

#[test]
fn conflict_fields_are_shared_non_key_columns() {
    let left = staff();
    let right = DataTable {
        columns: vec![
            col("dept", LogicalType::Text, vec![s("a")]),
            col("x", LogicalType::Text, vec![s("1")]),
            col("note", LogicalType::Text, vec![s("n")]),
            col("n", LogicalType::Integer, vec![s("1")]),
        ],
    };
    assert_eq!(conflict_fields(&left, &right, &names(&["dept"])), names(&["note", "n"]));
    assert_eq!(conflict_fields(&left, &right, &names(&["dept", "n", "note"])), Vec::<String>::new());
}

#[test]
fn sorting_by_one_key_matches_sorting_by_the_column() {
    let by_keys = apply_operation(&staff(), &PipelineOperation::MultiSort { columns: names(&["dept"]), ascending: vec![false] })
        .unwrap();
    let by_column =
        apply_operation(&staff(), &PipelineOperation::SortBy { column: "dept".to_string(), ascending: false }).unwrap();
    assert_eq!(cells(&by_keys, "n"), cells(&by_column, "n"));
    assert_eq!(cells(&by_keys, "n"), vec![s("2"), s("1"), s("1"), s("3")]);
}

#[test]
fn deleting_rows_without_the_keyword_keeps_the_rows_that_hold_it() {
    let t = DataTable { columns: vec![col("note", LogicalType::Text, vec![s("Very LATE"), s("fine"), None])] };
    let op = PipelineOperation::DropRowsNotContains { column: "note".to_string(), keyword: " late ".to_string() };
    let out = apply_operation(&t, &op).unwrap();
    assert_eq!(cells(&out, "note"), vec![s("Very LATE")]);
}

#[test]
fn feature_table_takes_number_columns_not_added_by_fusion() {
    let t = DataTable {
        columns: vec![
            col("id", LogicalType::Text, vec![]),
            col("speed", LogicalType::Float, vec![]),
            col("fusion_quality_score", LogicalType::Float, vec![]),
            col("count", LogicalType::Integer, vec![]),
            col("fusion", LogicalType::Integer, vec![]),
        ],
    };
    assert_eq!(feature_columns(&t, 12), vec![1, 3, 4]);
    assert_eq!(feature_columns(&t, 2), vec![1, 3]);
    let headers = feature_headers(&names(&["id"]), &names(&["speed"]));
    assert_eq!(
        headers,
        names(&[
            "id", "row_count", "start_time", "end_time", "speed_mean", "speed_max", "speed_min", "speed_last",
            "speed_delta", "speed_missing_rate",
        ])
    );
}

#[test]
fn csv_records_become_cells_and_extensions_name_formats() {
    let records = vec![vec![" a ".to_string(), "null".to_string()], vec!["".to_string()]];
    assert_eq!(csv_record_cells(&records), vec![vec![s("a"), None], vec![None]]);
    assert_eq!(format_of_extension_text("XLSX"), Some(FileFormat::Xlsx));
    assert_eq!(format_of_extension_text("txt"), None);
}

fn num(v: &str) -> ExprToken {
    ExprToken::Number(v.to_string())
}

fn column(v: &str) -> ExprToken {
    ExprToken::Column(v.to_string())
}

#[test]
fn expressions_parse_into_postfix_order() {
    assert_eq!(
        parse_expression("{a} + 2 * -( {b} - 1.5 )"),
        Some(vec![
            column("a"),
            num("2"),
            column("b"),
            num("1.5"),
            ExprToken::Minus,
            ExprToken::Negate,
            ExprToken::Star,
            ExprToken::Plus,
        ])
    );
    assert_eq!(
        parse_expression("8 - 2 - 1"),
        Some(vec![num("8"), num("2"), ExprToken::Minus, num("1"), ExprToken::Minus])
    );
    assert_eq!(tokenize("{ x }7"), Some(vec![column("x"), num("7")]));
    assert_eq!(tokenize("{x"), None);
    assert_eq!(tokenize("2 $"), None);
    assert_eq!(parse_expression("1 +"), None);
    assert_eq!(parse_expression("(1"), None);
    assert_eq!(parse_expression("1 2"), None);
}
