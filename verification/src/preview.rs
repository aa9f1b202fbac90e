//! Short texts for showing a table: compacted cells, header and row previews.

use vstd::prelude::*;
use crate::model::{cell_at, height_of, row_at, ColumnView, DataTable, LogicalType};
use crate::number::{decimal_spec, usize_to_text};
use crate::paging::{clamp_page, pseudo_random_row_indexes, sampled_positions, total_pages, window_of};
use crate::rows::position_range;
use crate::text::{concat, squeeze_spec, squeeze_whitespace, take_chars};

verus! {

/// Header cells of a preview.
#[derive(Clone, Debug)]
pub struct PreviewHeader {
    pub cells: Vec<String>,
}

/// One previewed row: its 1-based label and its compacted cells.
#[derive(Clone, Debug)]
pub struct PreviewRow {
    pub row_label: String,
    pub cells: Vec<String>,
}

/// A cell compacted for display: whitespace runs become one space, a missing or
/// empty cell shows `∅`, and a text longer than `max` characters keeps `max - 1`
/// of them followed by `…`.
pub open spec fn compact_text(v: Option<Seq<char>>, max: nat) -> Seq<char> {
    let base = match v {
        Some(s) => s,
        None => "∅"@,
    };
    let t = squeeze_spec(base, ' ');
    if t.len() == 0 {
        "∅"@
    } else if t.len() > max {
        t.take(max - 1) + "…"@
    } else {
        t
    }
}

/// A cell compacted for display (see `compact_text`).
pub fn compact_preview_text(value: &Option<String>, max_chars: usize) -> (r: String)
    requires
        max_chars >= 1,
    ensures
        r@ == compact_text(value.deep_view(), max_chars as nat),
{
    proof {
        reveal_strlit("∅");
        reveal_strlit("…");
    }
    let text = match value {
        Some(s) => squeeze_whitespace(s.as_str(), ' '),
        None => squeeze_whitespace("∅", ' '),
    };
    let n = crate::text::to_chars(text.as_str()).len();
    if n == 0 {
        return "∅".to_owned();
    }
    if n > max_chars {
        let head = take_chars(text.as_str(), max_chars - 1);
        concat(head.as_str(), "…")
    } else {
        text
    }
}

/// The compacted cells of a row: the first `visible` columns.
pub open spec fn preview_cells(row: Seq<Option<Seq<char>>>, visible: int, max: nat) -> Seq<Seq<char>> {
    Seq::new(
        if visible < row.len() {
            visible as nat
        } else {
            row.len()
        },
        |c: int| compact_text(row[c], max),
    )
}

/// Abstract value of a previewed row: label and cells.
pub open spec fn preview_row_view(r: PreviewRow) -> (Seq<char>, Seq<Seq<char>>) {
    (r.row_label@, r.cells.deep_view())
}

/// The preview of row `i` with `visible` columns and cells of at most `max`
/// characters.
pub open spec fn previewed_row(t: Seq<ColumnView>, i: int, visible: int, max: nat) -> (Seq<char>, Seq<Seq<char>>) {
    (decimal_spec((i + 1) as nat), preview_cells(row_at(t, i), visible, max))
}

/// The smaller of two sizes.
pub open spec fn min_of(a: int, b: int) -> int {
    if a < b {
        a
    } else {
        b
    }
}

impl DataTable {
    /// Compacted names of the first `limit` columns.
    pub fn preview_header(&self, limit: usize) -> (r: PreviewHeader)
        ensures
            r.cells.deep_view() == Seq::new(
                min_of(limit as int, self@.len() as int) as nat,
                |c: int| compact_text(Some(self@[c].name), 18),
            ),
    {
        let n = if limit < self.columns.len() { limit } else { self.columns.len() };
        let mut cells: Vec<String> = Vec::new();
        let mut c: usize = 0;
        while c < n
            invariant
                n <= self.columns@.len(),
                0 <= c <= n,
                cells@.len() == c,
                forall|k: int|
                    0 <= k < c ==> #[trigger] cells@[k]@ == compact_text(Some(self@[k].name), 18),
            decreases n - c,
        {
            let name = Some(self.columns[c].name.clone());
            cells.push(compact_preview_text(&name, 18));
            c += 1;
        }
        let r = PreviewHeader { cells };
        assert(r.cells.deep_view() =~= Seq::new(
            min_of(limit as int, self@.len() as int) as nat,
            |c: int| compact_text(Some(self@[c].name), 18),
        ));
        r
    }

    /// One previewed row.
    fn preview_one(&self, i: usize, visible: usize, max: usize) -> (r: PreviewRow)
        requires
            max >= 1,
            i < usize::MAX,
        ensures
            preview_row_view(r) == previewed_row(self@, i as int, visible as int, max as nat),
    {
        let row = self.row(i);
        let n = if visible < row.len() { visible } else { row.len() };
        let mut cells: Vec<String> = Vec::new();
        let mut c: usize = 0;
        while c < n
            invariant
                row.deep_view() == row_at(self@, i as int),
                max >= 1,
                n <= row@.len(),
                0 <= c <= n,
                cells@.len() == c,
                forall|k: int|
                    0 <= k < c ==> #[trigger] cells@[k]@ == compact_text(row.deep_view()[k], max as nat),
            decreases n - c,
        {
            cells.push(compact_preview_text(&row[c], max));
            c += 1;
        }
        let r = PreviewRow { row_label: usize_to_text(i + 1), cells };
        assert(r.cells.deep_view() =~= preview_cells(row_at(self@, i as int), visible as int, max as nat));
        r
    }

    /// The first `row_limit` rows with their first `col_limit` cells.
    pub fn preview_rows(&self, row_limit: usize, col_limit: usize) -> (r: Vec<PreviewRow>)
        ensures
            r@.len() == min_of(height_of(self@) as int, row_limit as int),
            forall|i: int|
                0 <= i < r@.len() ==> #[trigger] preview_row_view(r@[i]) == previewed_row(
                    self@,
                    i,
                    col_limit as int,
                    28,
                ),
    {
        let h = self.height();
        let n = if h < row_limit { h } else { row_limit };
        let mut out: Vec<PreviewRow> = Vec::new();
        let mut i: usize = 0;
        while i < n
            invariant
                0 <= i <= n,
                out@.len() == i,
                forall|k: int|
                    0 <= k < i ==> #[trigger] preview_row_view(out@[k]) == previewed_row(
                        self@,
                        k,
                        col_limit as int,
                        28,
                    ),
            decreases n - i,
        {
            out.push(self.preview_one(i, col_limit, 28));
            i += 1;
        }
        out
    }

    /// Previews of the rows at `indexes` that lie within the table.
    pub fn preview_rows_by_indexes(&self, indexes: &Vec<usize>, col_limit: usize) -> (r: Vec<
        PreviewRow,
    >)
        ensures
            r@.len() == crate::rows::positions_where(
                indexes@.len(),
                |k: int| (indexes@[k] as int) < height_of(self@),
            ).len(),
            forall|i: int|
                0 <= i < r@.len() ==> #[trigger] preview_row_view(r@[i]) == previewed_row(
                    self@,
                    indexes@[crate::rows::positions_where(
                        indexes@.len(),
                        |k: int| (indexes@[k] as int) < height_of(self@),
                    )[i] as int] as int,
                    col_limit as int,
                    32,
                ),
    {
        let h = self.height();
        let ghost keep = |k: int| (indexes@[k] as int) < height_of(self@);
        let mut out: Vec<PreviewRow> = Vec::new();
        let mut k: usize = 0;
        while k < indexes.len()
            invariant
                h == height_of(self@),
                keep == (|k: int| (indexes@[k] as int) < height_of(self@)),
                0 <= k <= indexes@.len(),
                out@.len() == crate::rows::positions_where(k as nat, keep).len(),
                forall|i: int|
                    0 <= i < out@.len() ==> #[trigger] preview_row_view(out@[i]) == previewed_row(
                        self@,
                        indexes@[crate::rows::positions_where(k as nat, keep)[i] as int] as int,
                        col_limit as int,
                        32,
                    ),
            decreases indexes.len() - k,
        {
            let ghost p = crate::rows::positions_where(k as nat, keep);
            assert(crate::rows::positions_where((k + 1) as nat, keep) == if keep(k as int) {
                p.push(k)
            } else {
                p
            });
            let ix = indexes[k];
            if ix < h {
                out.push(self.preview_one(ix, col_limit, 32));
            }
            k += 1;
        }
        out
    }

    /// The rows of one page, with their first `col_limit` cells.
    pub fn preview_rows_window(&self, page: usize, page_size: usize, col_limit: usize) -> (r: Vec<
        PreviewRow,
    >)
        ensures
            height_of(self@) == 0 ==> r@.len() == 0,
            height_of(self@) > 0 ==> ({
                let w = window_of(height_of(self@) as int, page as int, page_size as int);
                &&& r@.len() == w.2 - w.1
                &&& forall|i: int|
                    0 <= i < r@.len() ==> #[trigger] preview_row_view(r@[i]) == previewed_row(
                        self@,
                        w.1 + i,
                        col_limit as int,
                        32,
                    )
            }),
    {
        let h = self.height();
        if h == 0 {
            return Vec::new();
        }
        let (_, start, end) = crate::paging::page_window(h, page, page_size);
        let indexes = crate::rows::range_positions(start, end);
        let r = self.preview_rows_by_indexes(&indexes, col_limit);
        proof {
            lemma_positions_all(
                indexes@.len(),
                |k: int| (indexes@[k] as int) < height_of(self@),
            );
        }
        r
    }

    /// A scattered sample of rows for one page (see `sampled_positions`).
    pub fn preview_sample_rows(&self, page: usize, page_size: usize, col_limit: usize) -> (r: Vec<
        PreviewRow,
    >)
        ensures
            ({
                let idx = sampled_positions(height_of(self@) as int, page as int, page_size as int);
                &&& r@.len() == idx.len()
                &&& forall|i: int|
                    0 <= i < r@.len() ==> #[trigger] preview_row_view(r@[i]) == previewed_row(
                        self@,
                        idx[i] as int,
                        col_limit as int,
                        32,
                    )
            }),
    {
        let indexes = pseudo_random_row_indexes(self.height(), page, page_size);
        let r = self.preview_rows_by_indexes(&indexes, col_limit);
        let count = indexes.len();
        proof {
            let keep = |k: int| (indexes@[k] as int) < height_of(self@);
            assert forall|k: int| 0 <= k < indexes@.len() implies #[trigger] keep(k) by {
                assert((indexes@[k] as int) < height_of(self@));
            }
            lemma_positions_all(indexes@.len(), keep);
            let p = crate::rows::positions_where(indexes@.len(), keep);
            assert(r@.len() == indexes@.len());
            assert forall|i: int| 0 <= i < r@.len() implies #[trigger] preview_row_view(r@[i])
                == previewed_row(self@, indexes@[i] as int, col_limit as int, 32) by {
                assert(p[i] == i as usize);
                assert(i < count);
            }
        }
        r
    }
}

/// With every position kept, `positions_where` lists `0..n`.
pub proof fn lemma_positions_all(n: nat, keep: spec_fn(int) -> bool)
    requires
        forall|k: int| 0 <= k < n ==> #[trigger] keep(k),
    ensures
        crate::rows::positions_where(n, keep) =~= Seq::new(n, |k: int| k as usize),
    decreases n,
{
    if n > 0 {
        lemma_positions_all((n - 1) as nat, keep);
    }
}

/// Every position that `positions_where` lists is below `n`.
pub proof fn lemma_positions_where_bound(n: nat, keep: spec_fn(int) -> bool, m: int)
    requires
        0 <= m < crate::rows::positions_where(n, keep).len(),
        n <= usize::MAX,
    ensures
        (crate::rows::positions_where(n, keep)[m] as int) < n,
        keep(crate::rows::positions_where(n, keep)[m] as int),
    decreases n,
{
    if n > 0 {
        let p = crate::rows::positions_where((n - 1) as nat, keep);
        if m < p.len() {
            lemma_positions_where_bound((n - 1) as nat, keep, m);
        }
    }
}

} // verus!
