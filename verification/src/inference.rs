//! Reading cell texts as values: booleans, null markers, and the type a column's
//! cells suggest; building a table from rows.

use vstd::prelude::*;
use crate::datetime::{looks_like_datetime, parsed_datetime};
use crate::model::{copy_cell, ColumnView, DataTable, LogicalType, TableColumn};
use crate::number::{float_text_ok, float_text_ok_exec, parse_i64, parse_int_spec};
use crate::options::{fold_word, folded_word};
use crate::rows::positions_where;
use crate::text::{text_eq, trim, trim_spec};

verus! {

/// Boolean words of the table model: trimmed, ASCII case ignored.
pub open spec fn bool_flag(s: Seq<char>) -> Option<bool> {
    let w = folded_word(s);
    if w == "true"@ || w == "1"@ || w == "yes"@ || w == "y"@ || w == "是"@ {
        Some(true)
    } else if w == "false"@ || w == "0"@ || w == "no"@ || w == "n"@ || w == "否"@ {
        Some(false)
    } else {
        None
    }
}

/// Reads a boolean word (see `bool_flag`).
pub fn parse_bool(value: &str) -> (r: Option<bool>)
    ensures
        r == bool_flag(value@),
{
    let w = fold_word(value);
    let s = w.as_str();
    if text_eq(s, "true") || text_eq(s, "1") || text_eq(s, "yes") || text_eq(s, "y") || text_eq(
        s,
        "是",
    ) {
        Some(true)
    } else if text_eq(s, "false") || text_eq(s, "0") || text_eq(s, "no") || text_eq(s, "n")
        || text_eq(s, "否") {
        Some(false)
    } else {
        None
    }
}

/// Texts that mark a missing value once trimmed.
pub open spec fn null_word(s: Seq<char>) -> bool {
    let t = trim_spec(s);
    t.len() == 0 || t == "null"@ || t == "NULL"@ || t == "NaN"@ || t == "N/A"@ || t == "NA"@ || t
        == "None"@ || t == "无"@ || t == "-"@
}

/// Whether a text marks a missing value.
pub fn null_marked(value: &str) -> (r: bool)
    ensures
        r == null_word(value@),
{
    let t = trim(value);
    let s = t.as_str();
    s.is_empty() || text_eq(s, "null") || text_eq(s, "NULL") || text_eq(s, "NaN") || text_eq(
        s,
        "N/A",
    ) || text_eq(s, "NA") || text_eq(s, "None") || text_eq(s, "无") || text_eq(s, "-")
}

/// The present cells, in order.
pub open spec fn present(values: Seq<Option<Seq<char>>>) -> Seq<Seq<char>>
    decreases values.len(),
{
    if values.len() == 0 {
        Seq::empty()
    } else {
        match values.last() {
            Some(s) => present(values.drop_last()).push(s),
            None => present(values.drop_last()),
        }
    }
}

/// The type the present cells suggest: integer if all read as `i64`, float if
/// all read as `f64`, boolean if all are boolean words, date-time if at least
/// 80% (rounded down) are date-times, text otherwise or without present cells.
pub open spec fn inferred_type(values: Seq<Option<Seq<char>>>) -> LogicalType {
    let nn = present(values);
    if nn.len() == 0 {
        LogicalType::Text
    } else if forall|k: int| 0 <= k < nn.len() ==> (#[trigger] parse_int_spec(nn[k])) is Some {
        LogicalType::Integer
    } else if forall|k: int| 0 <= k < nn.len() ==> #[trigger] float_text_ok(nn[k]) {
        LogicalType::Float
    } else if forall|k: int| 0 <= k < nn.len() ==> (#[trigger] bool_flag(nn[k])) is Some {
        LogicalType::Boolean
    } else if positions_where(nn.len(), |k: int| parsed_datetime(nn[k]) is Some).len() * 100
        / nn.len() >= 80 {
        LogicalType::DateTime
    } else {
        LogicalType::Text
    }
}

/// The present cells, in order.
pub fn present_cells(values: &Vec<Option<String>>) -> (r: Vec<String>)
    ensures
        r.deep_view() == present(values.deep_view()),
{
    let mut out: Vec<String> = Vec::new();
    let mut i: usize = 0;
    while i < values.len()
        invariant
            0 <= i <= values@.len(),
            out.deep_view() == present(values.deep_view().take(i as int)),
        decreases values.len() - i,
    {
        assert(values.deep_view().take(i + 1).drop_last() =~= values.deep_view().take(i as int));
        match &values[i] {
            Some(s) => {
                let ghost before = out.deep_view();
                out.push(s.clone());
                assert(out.deep_view() =~= before.push(s@));
            },
            None => {},
        }
        i += 1;
    }
    assert(values.deep_view().take(values@.len() as int) =~= values.deep_view());
    out
}

/// The type a column's present cells suggest (see `inferred_type`).
pub fn infer_logical_type(values: &Vec<Option<String>>) -> (r: LogicalType)
    ensures
        r == inferred_type(values.deep_view()),
{
    let nn = present_cells(values);
    let ghost s = nn.deep_view();
    if nn.len() == 0 {
        return LogicalType::Text;
    }
    let mut all_int = true;
    let mut all_float = true;
    let mut all_bool = true;
    let mut k: usize = 0;
    while k < nn.len()
        invariant
            s == nn.deep_view(),
            0 <= k <= s.len(),
            all_int == forall|m: int| 0 <= m < k ==> (#[trigger] parse_int_spec(s[m])) is Some,
            all_float == forall|m: int| 0 <= m < k ==> #[trigger] float_text_ok(s[m]),
            all_bool == forall|m: int| 0 <= m < k ==> (#[trigger] bool_flag(s[m])) is Some,
        decreases nn.len() - k,
    {
        assert(s[k as int] == nn@[k as int]@);
        if parse_i64(nn[k].as_str()).is_none() {
            all_int = false;
        }
        if !float_text_ok_exec(nn[k].as_str()) {
            all_float = false;
        }
        if parse_bool(nn[k].as_str()).is_none() {
            all_bool = false;
        }
        k += 1;
    }
    if all_int {
        return LogicalType::Integer;
    }
    if all_float {
        return LogicalType::Float;
    }
    if all_bool {
        return LogicalType::Boolean;
    }
    let ghost keep = |m: int| parsed_datetime(s[m]) is Some;
    let mut matched: usize = 0;
    let mut j: usize = 0;
    while j < nn.len()
        invariant
            s == nn.deep_view(),
            keep == (|m: int| parsed_datetime(s[m]) is Some),
            0 <= j <= s.len(),
            matched == positions_where(j as nat, keep).len(),
            matched <= j,
        decreases nn.len() - j,
    {
        let ghost p = positions_where(j as nat, keep);
        if looks_like_datetime(nn[j].as_str()) {
            matched += 1;
        }
        assert(positions_where((j + 1) as nat, keep) == if keep(j as int) {
            p.push(j)
        } else {
            p
        });
        j += 1;
    }
    let scaled: u128 = (matched as u128) * 100;
    if scaled / (nn.len() as u128) >= 80 {
        LogicalType::DateTime
    } else {
        LogicalType::Text
    }
}

/// Cell `c` of each row (missing where a row is shorter).
pub open spec fn column_of_rows(rows: Seq<Seq<Option<Seq<char>>>>, c: int) -> Seq<Option<Seq<char>>> {
    Seq::new(rows.len(), |i: int| if c < rows[i].len() { rows[i][c] } else { None })
}

/// The table with one column per header: the given type, or the inferred one
/// where no type is given, and the cells of the rows at that position.
pub open spec fn table_from_rows(
    headers: Seq<Seq<char>>,
    types: Seq<LogicalType>,
    rows: Seq<Seq<Option<Seq<char>>>>,
) -> Seq<ColumnView> {
    Seq::new(
        headers.len(),
        |c: int|
            (ColumnView {
                name: headers[c],
                logical_type: if c < types.len() {
                    types[c]
                } else {
                    inferred_type(column_of_rows(rows, c))
                },
                values: column_of_rows(rows, c),
            }),
    )
}

/// Builds a table from headers, column types and rows.
pub fn build_table_from_rows(
    headers: Vec<String>,
    logical_types: Vec<LogicalType>,
    rows: Vec<Vec<Option<String>>>,
) -> (r: DataTable)
    ensures
        r@ == table_from_rows(headers.deep_view(), logical_types@, rows.deep_view()),
{
    let mut columns: Vec<TableColumn> = Vec::new();
    let mut c: usize = 0;
    while c < headers.len()
        invariant
            0 <= c <= headers@.len(),
            columns@.len() == c,
            forall|k: int|
                0 <= k < c ==> #[trigger] columns@[k]@ == table_from_rows(
                    headers.deep_view(),
                    logical_types@,
                    rows.deep_view(),
                )[k],
        decreases headers.len() - c,
    {
        let mut values: Vec<Option<String>> = Vec::new();
        let mut i: usize = 0;
        while i < rows.len()
            invariant
                0 <= i <= rows@.len(),
                values@.len() == i,
                forall|k: int|
                    0 <= k < i ==> #[trigger] values@[k].deep_view() == column_of_rows(
                        rows.deep_view(),
                        c as int,
                    )[k],
            decreases rows.len() - i,
        {
            if c < rows[i].len() {
                values.push(copy_cell(&rows[i][c]));
            } else {
                values.push(None);
            }
            i += 1;
        }
        assert(values.deep_view() =~= column_of_rows(rows.deep_view(), c as int));
        let logical_type = if c < logical_types.len() {
            logical_types[c]
        } else {
            infer_logical_type(&values)
        };
        columns.push(TableColumn { name: headers[c].clone(), logical_type, values });
        c += 1;
    }
    let r = DataTable { columns };
    assert(r@ =~= table_from_rows(headers.deep_view(), logical_types@, rows.deep_view()));
    r
}

/// The present cells are exactly the texts of the cells that are present.
proof fn lemma_present_members(values: Seq<Option<Seq<char>>>)
    ensures
        forall|k: int| 0 <= k < present(values).len() ==> exists|i: int|
            0 <= i < values.len() && values[i] == Some(#[trigger] present(values)[k]),
        forall|i: int|
            0 <= i < values.len() && (#[trigger] values[i]) is Some ==> present(values).contains(values[i]->0),
    decreases values.len(),
{
    if values.len() > 0 {
        let d = values.drop_last();
        lemma_present_members(d);
        assert forall|i: int| 0 <= i < d.len() implies #[trigger] d[i] == values[i] by {}
        let p = present(values);
        let q = present(d);
        assert forall|k: int| 0 <= k < p.len() implies exists|i: int|
            0 <= i < values.len() && values[i] == Some(#[trigger] p[k]) by {
            if k < q.len() {
                assert(p[k] == q[k]);
                let i = choose|i: int| 0 <= i < d.len() && d[i] == Some(q[k]);
                assert(values[i] == Some(p[k]));
            } else {
                assert(values[values.len() - 1] == Some(p[k]));
            }
        }
        assert forall|i: int| 0 <= i < values.len() && (#[trigger] values[i]) is Some implies p.contains(
            values[i]->0,
        ) by {
            if i < values.len() - 1 {
                assert(d[i] is Some);
                let k = choose|k: int| 0 <= k < q.len() && q[k] == d[i]->0;
                assert(p[k] == values[i]->0);
            } else {
                assert(p[p.len() - 1] == values[i]->0);
            }
        }
    }
}

/// A cell that is missing or reads as an `i64`.
pub open spec fn reads_as_int(v: Option<Seq<char>>) -> bool {
    match v {
        Some(s) => parse_int_spec(s) is Some,
        None => true,
    }
}

/// A cell that is missing or reads as an `f64`.
pub open spec fn reads_as_float(v: Option<Seq<char>>) -> bool {
    match v {
        Some(s) => float_text_ok(s),
        None => true,
    }
}

/// A present cell that does not read as an `i64`.
pub open spec fn present_non_int(v: Option<Seq<char>>) -> bool {
    match v {
        Some(s) => parse_int_spec(s) is None,
        None => false,
    }
}

/// A cell that is missing or a boolean word.
pub open spec fn reads_as_bool(v: Option<Seq<char>>) -> bool {
    match v {
        Some(s) => bool_flag(s) is Some,
        None => true,
    }
}

/// A present cell that does not read as an `f64`.
pub open spec fn present_non_float(v: Option<Seq<char>>) -> bool {
    match v {
        Some(s) => !float_text_ok(s),
        None => false,
    }
}

/// What the cells of a column say of its type: with no present cell it is
/// text; when there is a present cell and every present cell reads as an
/// `i64` it is integer; when every present cell reads as an `f64` but one does
/// not read as an `i64` (such as `1.5`), it is float; when every present cell
/// is a boolean word and one is no number (such as `yes`), it is boolean.
pub proof fn lemma_inferred_numbers(values: Seq<Option<Seq<char>>>)
    ensures
        (forall|i: int| 0 <= i < values.len() ==> (#[trigger] values[i]) is None) ==> inferred_type(values)
            == LogicalType::Text,
        (exists|i: int| 0 <= i < values.len() && (#[trigger] values[i]) is Some) && (forall|i: int|
            0 <= i < values.len() ==> #[trigger] reads_as_int(values[i])) ==> inferred_type(values)
            == LogicalType::Integer,
        (forall|i: int| 0 <= i < values.len() ==> #[trigger] reads_as_float(values[i])) && (exists|i: int|
            0 <= i < values.len() && #[trigger] present_non_int(values[i])) ==> inferred_type(values)
            == LogicalType::Float,
        (forall|i: int| 0 <= i < values.len() ==> #[trigger] reads_as_bool(values[i])) && (exists|i: int|
            0 <= i < values.len() && #[trigger] present_non_float(values[i])) ==> inferred_type(values)
            == LogicalType::Boolean,
{
    lemma_present_members(values);
    let nn = present(values);
    if forall|i: int| 0 <= i < values.len() ==> (#[trigger] values[i]) is None {
        if nn.len() > 0 {
            let i = choose|i: int| 0 <= i < values.len() && values[i] == Some(#[trigger] nn[0]);
            assert(values[i] is None);
        }
    }
    if exists|i: int| 0 <= i < values.len() && (#[trigger] values[i]) is Some {
        let i = choose|i: int| 0 <= i < values.len() && (#[trigger] values[i]) is Some;
        assert(nn.contains(values[i]->0));
    }
    if forall|i: int| 0 <= i < values.len() ==> #[trigger] reads_as_int(values[i]) {
        assert forall|k: int| 0 <= k < nn.len() implies (#[trigger] parse_int_spec(nn[k])) is Some by {
            let i = choose|i: int| 0 <= i < values.len() && values[i] == Some(nn[k]);
            assert(reads_as_int(values[i]));
        }
    }
    if (forall|i: int| 0 <= i < values.len() ==> #[trigger] reads_as_float(values[i])) && (exists|i: int|
        0 <= i < values.len() && #[trigger] present_non_int(values[i])) {
        assert forall|k: int| 0 <= k < nn.len() implies #[trigger] float_text_ok(nn[k]) by {
            let i = choose|i: int| 0 <= i < values.len() && values[i] == Some(nn[k]);
            assert(reads_as_float(values[i]));
        }
        let i = choose|i: int| 0 <= i < values.len() && #[trigger] present_non_int(values[i]);
        assert(nn.contains(values[i]->0));
        let k = choose|k: int| 0 <= k < nn.len() && nn[k] == values[i]->0;
        assert(parse_int_spec(nn[k]) is None);
    }
    if (forall|i: int| 0 <= i < values.len() ==> #[trigger] reads_as_bool(values[i])) && (exists|i: int|
        0 <= i < values.len() && #[trigger] present_non_float(values[i])) {
        assert forall|k: int| 0 <= k < nn.len() implies (#[trigger] bool_flag(nn[k])) is Some by {
            let i = choose|i: int| 0 <= i < values.len() && values[i] == Some(nn[k]);
            assert(reads_as_bool(values[i]));
        }
        let i = choose|i: int| 0 <= i < values.len() && #[trigger] present_non_float(values[i]);
        assert(nn.contains(values[i]->0));
        let k = choose|k: int| 0 <= k < nn.len() && nn[k] == values[i]->0;
        assert(!float_text_ok(nn[k]));
        if forall|q: int| 0 <= q < nn.len() ==> (#[trigger] parse_int_spec(nn[q])) is Some {
            assert(parse_int_spec(nn[k]) is Some);
            crate::number::lemma_int_text_is_float(nn[k]);
        }
    }
}

} // verus!
