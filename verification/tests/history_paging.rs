use data_workbench::error::TableError;
use data_workbench::history::History;
use data_workbench::model::{DataTable, LogicalType, TableColumn};
use data_workbench::paging::{clamp_page, greatest_common_divisor, page_window, pseudo_random_row_indexes, total_pages};
use data_workbench::preview::compact_preview_text;

#[test]
fn undo_returns_to_the_recorded_state_and_redo_comes_back() {
    let mut h = History::new(1);
    h.record(2);
    h.record(3);
    assert!(h.can_undo());
    assert!(!h.can_redo());
    assert_eq!(h.undo(), Ok(()));
    assert_eq!(*h.current(), 2);
    assert_eq!(h.redo(), Ok(()));
    assert_eq!(*h.current(), 3);
    assert_eq!(h.redo(), Err(TableError::NothingToRedo));
    assert_eq!(h.undo(), Ok(()));
    h.record(9);
    assert!(!h.can_redo());
    assert_eq!(h.undo(), Ok(()));
    assert_eq!(h.undo(), Ok(()));
    assert_eq!(*h.current(), 1);
    assert_eq!(h.undo(), Err(TableError::NothingToUndo));
    assert_eq!(*h.current(), 1);
}

#[test]
fn pages_cover_the_items_in_order() {
    assert_eq!(total_pages(0, 10), 1);
    assert_eq!(total_pages(25, 10), 3);
    assert_eq!(total_pages(25, 0), 25);
    assert_eq!(clamp_page(0, 3), 1);
    assert_eq!(clamp_page(9, 3), 3);
    assert_eq!(clamp_page(2, 0), 1);
    assert_eq!(page_window(25, 3, 10), (3, 20, 25));
    assert_eq!(page_window(25, 7, 10), (3, 20, 25));
    assert_eq!(page_window(0, 2, 10), (1, 0, 0));
    let mut covered = Vec::new();
    for page in 1..=total_pages(23, 5) {
        let (_, start, end) = page_window(23, page, 5);
        covered.extend(start..end);
    }
    assert_eq!(covered, (0..23).collect::<Vec<_>>());
}

#[test]
fn gcd_values() {
    assert_eq!(greatest_common_divisor(12, 18), 6);
    assert_eq!(greatest_common_divisor(7, 0), 7);
    assert_eq!(greatest_common_divisor(0, 5), 5);
}

fn gcd(mut a: usize, mut b: usize) -> usize {
    while b != 0 {
        let r = a % b;
        a = b;
        b = r;
    }
    a
}

fn expected_sample(total_rows: usize, page: usize, page_size: usize) -> Vec<usize> {
    if total_rows == 0 {
        return Vec::new();
    }
    let page_size = page_size.max(1);
    let pages = if total_rows == 0 { 1 } else { (total_rows + page_size - 1) / page_size };
    let page = page.max(1).min(pages.max(1));
    let offset = (page - 1) * page_size;
    let seed = ((page as u64) << 32) ^ total_rows as u64 ^ 0x9E37_79B9_7F4A_7C15;
    let start = seed as usize % total_rows;
    let mut step = if total_rows <= 1 { 1 } else { ((seed.rotate_left(17) as usize) % (total_rows - 1)).max(1) };
    while step < total_rows && gcd(step, total_rows) != 1 {
        step += 1;
    }
    if step >= total_rows {
        step = total_rows.saturating_sub(1).max(1);
    }
    (0..page_size)
        .map(|index| offset + index)
        .take_while(|position| *position < total_rows)
        .map(|position| (start + position * step) % total_rows)
        .collect()
}

#[test]
fn sample_rows_follow_the_scatter_formula() {
    for total in [0usize, 1, 2, 3, 10, 97, 1000] {
        for page in [0usize, 1, 2, 5, 40] {
            for size in [0usize, 1, 7, 50] {
                assert_eq!(pseudo_random_row_indexes(total, page, size), expected_sample(total, page, size));
            }
        }
    }
}

#[test]
fn a_sample_page_lists_distinct_rows() {
    for page in 1..=total_pages(97, 10) {
        let mut rows = pseudo_random_row_indexes(97, page, 10);
        let n = rows.len();
        rows.sort();
        rows.dedup();
        assert_eq!(rows.len(), n);
        assert!(rows.iter().all(|r| *r < 97));
    }
}

#[test]
fn preview_text_is_compacted() {
    assert_eq!(compact_preview_text(&None, 10), "∅");
    assert_eq!(compact_preview_text(&Some(" a \t b\nc ".to_string()), 10), "a b c");
    assert_eq!(compact_preview_text(&Some("   ".to_string()), 10), "∅");
    assert_eq!(compact_preview_text(&Some("abcdefghijkl".to_string()), 5), "abcd…");
    let t = DataTable {
        columns: vec![TableColumn {
            name: "a very long column name here".to_string(),
            logical_type: LogicalType::Text,
            values: vec![Some("x".to_string())],
        }],
    };
    assert_eq!(t.preview_header(5).cells, vec!["a very long colum…".to_string()]);
    let rows = t.preview_rows(5, 5);
    assert_eq!(rows.len(), 1);
    assert_eq!(rows[0].row_label, "1");
}
