//! The table model: typed columns of optional text cells.

use vstd::prelude::*;

verus! {

/// Semantic type of a column.
#[derive(Clone, Copy, Debug, PartialEq, Eq, Structural)]
pub enum LogicalType {
    Integer,
    Float,
    Boolean,
    DateTime,
    Text,
}

/// The label of each logical type.
pub open spec fn logical_type_label(t: LogicalType) -> Seq<char> {
    match t {
        LogicalType::Integer => "整数"@,
        LogicalType::Float => "浮点"@,
        LogicalType::Boolean => "布尔"@,
        LogicalType::DateTime => "时间"@,
        LogicalType::Text => "文本"@,
    }
}

impl LogicalType {
    /// The type's label.
    pub fn as_str(&self) -> (r: &'static str)
        ensures
            r@ == logical_type_label(*self),
    {
        match self {
            LogicalType::Integer => "整数",
            LogicalType::Float => "浮点",
            LogicalType::Boolean => "布尔",
            LogicalType::DateTime => "时间",
            LogicalType::Text => "文本",
        }
    }
}

/// One named column; every cell is optional text.
#[derive(Clone, Debug)]
pub struct TableColumn {
    pub name: String,
    pub logical_type: LogicalType,
    pub values: Vec<Option<String>>,
}

/// A table is a list of columns; its height is the length of the first column.
#[derive(Clone, Debug)]
pub struct DataTable {
    pub columns: Vec<TableColumn>,
}

/// Abstract value of a column.
#[verifier::ext_equal]
pub struct ColumnView {
    pub name: Seq<char>,
    pub logical_type: LogicalType,
    pub values: Seq<Option<Seq<char>>>,
}

impl View for TableColumn {
    type V = ColumnView;

    open spec fn view(&self) -> ColumnView {
        (ColumnView {
            name: self.name@,
            logical_type: self.logical_type,
            values: self.values.deep_view(),
        })
    }
}

/// Abstract values of a list of columns.
pub open spec fn columns_view(cols: Seq<TableColumn>) -> Seq<ColumnView> {
    Seq::new(cols.len(), |i: int| cols[i]@)
}

impl View for DataTable {
    type V = Seq<ColumnView>;

    open spec fn view(&self) -> Seq<ColumnView> {
        columns_view(self.columns@)
    }
}

/// Number of rows: length of the first column, or zero without columns.
pub open spec fn height_of(t: Seq<ColumnView>) -> nat {
    if t.len() == 0 {
        0
    } else {
        t[0].values.len()
    }
}

/// Cell `r` of a column; a cell past the column's end reads as missing.
pub open spec fn cell_at(c: ColumnView, r: int) -> Option<Seq<char>> {
    if 0 <= r < c.values.len() {
        c.values[r]
    } else {
        None
    }
}

/// Row `r` across all columns.
pub open spec fn row_at(t: Seq<ColumnView>, r: int) -> Seq<Option<Seq<char>>> {
    Seq::new(t.len(), |c: int| cell_at(t[c], r))
}

/// Column names in order.
pub open spec fn names_of(t: Seq<ColumnView>) -> Seq<Seq<char>> {
    Seq::new(t.len(), |i: int| t[i].name)
}

/// Index of the first occurrence of `x` in `s`.
pub open spec fn first_index_of(s: Seq<Seq<char>>, x: Seq<char>) -> Option<int>
    decreases s.len(),
{
    if s.len() == 0 {
        None
    } else {
        match first_index_of(s.drop_last(), x) {
            Some(i) => Some(i),
            None => if s.last() == x {
                Some(s.len() - 1)
            } else {
                None
            },
        }
    }
}

/// Position of the first column named `name`.
pub open spec fn column_position(t: Seq<ColumnView>, name: Seq<char>) -> Option<int> {
    first_index_of(names_of(t), name)
}

pub open spec fn has_name(t: Seq<ColumnView>, name: Seq<char>) -> bool {
    exists|i: int| 0 <= i < t.len() && t[i].name == name
}

/// The first index of a name is where it first occurs.
pub proof fn lemma_first_index_of(s: Seq<Seq<char>>, x: Seq<char>)
    ensures
        match first_index_of(s, x) {
            Some(i) => 0 <= i < s.len() && s[i] == x && forall|j: int|
                0 <= j < i ==> s[j] != x,
            None => forall|j: int| 0 <= j < s.len() ==> s[j] != x,
        },
    decreases s.len(),
{
    if s.len() > 0 {
        let p = s.drop_last();
        lemma_first_index_of(p, x);
        assert(forall|j: int| 0 <= j < p.len() ==> p[j] == s[j]);
    }
}

/// The first index is pinned down by "matches here, and nowhere before".
pub proof fn lemma_first_index_at(s: Seq<Seq<char>>, x: Seq<char>, i: int)
    requires
        0 <= i < s.len(),
        s[i] == x,
        forall|j: int| 0 <= j < i ==> s[j] != x,
    ensures
        first_index_of(s, x) == Some(i),
{
    lemma_first_index_of(s, x);
}

/// The position of a named column is the first column with that name.
pub proof fn lemma_column_position(t: Seq<ColumnView>, name: Seq<char>)
    ensures
        match column_position(t, name) {
            Some(i) => 0 <= i < t.len() && t[i].name == name && forall|j: int|
                0 <= j < i ==> t[j].name != name,
            None => !has_name(t, name),
        },
{
    let ns = names_of(t);
    lemma_first_index_of(ns, name);
    assert(forall|j: int| 0 <= j < t.len() ==> #[trigger] ns[j] == t[j].name);
    match first_index_of(ns, name) {
        Some(i) => {
            assert(ns[i] == name);
            assert forall|j: int| 0 <= j < i implies t[j].name != name by {
                assert(ns[j] != name);
            }
        },
        None => {
            assert forall|j: int| 0 <= j < t.len() implies t[j].name != name by {
                assert(ns[j] != name);
            }
        },
    }
}

/// Copies one optional cell.
pub fn copy_cell(v: &Option<String>) -> (r: Option<String>)
    ensures
        r.deep_view() == v.deep_view(),
{
    match v {
        Some(s) => Some(s.clone()),
        None => None,
    }
}

/// Copies a column's cells.
pub fn copy_cells(values: &Vec<Option<String>>) -> (r: Vec<Option<String>>)
    ensures
        r.deep_view() == values.deep_view(),
{
    let mut r: Vec<Option<String>> = Vec::new();
    let mut i: usize = 0;
    while i < values.len()
        invariant
            0 <= i <= values@.len(),
            r@.len() == i,
            forall|k: int| 0 <= k < i ==> #[trigger] r@[k].deep_view() == values@[k].deep_view(),
        decreases values.len() - i,
    {
        r.push(copy_cell(&values[i]));
        i += 1;
    }
    assert(r.deep_view() =~= values.deep_view());
    r
}

impl TableColumn {
    /// A column with the same name, type and cells.
    pub fn duplicate(&self) -> (r: TableColumn)
        ensures
            r@ == self@,
    {
        TableColumn {
            name: self.name.clone(),
            logical_type: self.logical_type,
            values: copy_cells(&self.values),
        }
    }
}

/// Copies a list of columns.
pub fn copy_columns(columns: &Vec<TableColumn>) -> (r: Vec<TableColumn>)
    ensures
        r@.len() == columns@.len(),
        forall|i: int| 0 <= i < columns@.len() ==> #[trigger] r@[i]@ == columns@[i]@,
{
    let mut r: Vec<TableColumn> = Vec::new();
    let mut i: usize = 0;
    while i < columns.len()
        invariant
            0 <= i <= columns@.len(),
            r@.len() == i,
            forall|k: int| 0 <= k < i ==> #[trigger] r@[k]@ == columns@[k]@,
        decreases columns.len() - i,
    {
        r.push(columns[i].duplicate());
        i += 1;
    }
    r
}

impl DataTable {
    /// A table with the same columns.
    pub fn duplicate(&self) -> (r: DataTable)
        ensures
            r@ == self@,
    {
        let columns = copy_columns(&self.columns);
        let r = DataTable { columns };
        assert(r@ =~= self@);
        r
    }

    /// Number of columns.
    pub fn width(&self) -> (r: usize)
        ensures
            r == self@.len(),
    {
        self.columns.len()
    }

    /// Number of rows (length of the first column).
    pub fn height(&self) -> (r: usize)
        ensures
            r == height_of(self@),
    {
        if self.columns.len() == 0 {
            0
        } else {
            self.columns[0].values.len()
        }
    }

    /// Column names in order.
    pub fn column_names(&self) -> (r: Vec<String>)
        ensures
            r.deep_view() == names_of(self@),
    {
        let mut r: Vec<String> = Vec::new();
        let mut i: usize = 0;
        while i < self.columns.len()
            invariant
                0 <= i <= self.columns@.len(),
                r@.len() == i,
                forall|k: int| 0 <= k < i ==> #[trigger] r@[k]@ == self.columns@[k].name@,
            decreases self.columns.len() - i,
        {
            r.push(self.columns[i].name.clone());
            i += 1;
        }
        assert(r.deep_view() =~= names_of(self@));
        r
    }

    /// The cells of row `index`; cells past a column's end are missing.
    pub fn row(&self, index: usize) -> (r: Vec<Option<String>>)
        ensures
            r.deep_view() == row_at(self@, index as int),
    {
        let mut r: Vec<Option<String>> = Vec::new();
        let mut i: usize = 0;
        while i < self.columns.len()
            invariant
                0 <= i <= self.columns@.len(),
                r@.len() == i,
                forall|k: int|
                    0 <= k < i ==> #[trigger] r@[k].deep_view() == cell_at(
                        self@[k],
                        index as int,
                    ),
            decreases self.columns.len() - i,
        {
            let column = &self.columns[i];
            if index < column.values.len() {
                r.push(copy_cell(&column.values[index]));
            } else {
                r.push(None);
            }
            i += 1;
        }
        assert(r.deep_view() =~= row_at(self@, index as int));
        r
    }
}

/// Position of the first column with the given name.
pub fn find_column(table: &DataTable, name: &str) -> (r: Option<usize>)
    ensures
        match r {
            Some(i) => column_position(table@, name@) == Some(i as int),
            None => column_position(table@, name@) is None,
        },
{
    let mut i: usize = 0;
    while i < table.columns.len()
        invariant
            0 <= i <= table.columns@.len(),
            forall|j: int| 0 <= j < i ==> table@[j].name != name@,
        decreases table.columns.len() - i,
    {
        if crate::text::text_eq(table.columns[i].name.as_str(), name) {
            proof {
                lemma_first_index_at(names_of(table@), name@, i as int);
            }
            return Some(i);
        }
        i += 1;
    }
    proof {
        lemma_first_index_of(names_of(table@), name@);
        match first_index_of(names_of(table@), name@) {
            Some(k) => {
                assert(names_of(table@)[k] == table@[k].name);
            },
            None => {},
        }
    }
    None
}

/// Whether some column has the given name.
pub fn contains_column(table: &DataTable, name: &str) -> (r: bool)
    ensures
        r == has_name(table@, name@),
{
    let found = find_column(table, name);
    proof {
        lemma_column_position(table@, name@);
    }
    found.is_some()
}

} // verus!

verus! {

/// Every name in `names` is the name of some column.
pub open spec fn all_found(t: Seq<ColumnView>, names: Seq<Seq<char>>) -> bool {
    forall|k: int| 0 <= k < names.len() ==> (#[trigger] column_position(t, names[k])) is Some
}

/// Column positions of the names, in order.
pub open spec fn positions_of(t: Seq<ColumnView>, names: Seq<Seq<char>>) -> Seq<usize> {
    Seq::new(names.len(), |k: int| column_position(t, names[k]).unwrap() as usize)
}

/// Index in `names` of the first name that no column carries.
pub open spec fn first_unknown(t: Seq<ColumnView>, names: Seq<Seq<char>>) -> Option<int>
    decreases names.len(),
{
    if names.len() == 0 {
        None
    } else {
        match first_unknown(t, names.drop_last()) {
            Some(k) => Some(k),
            None => if column_position(t, names.last()) is None {
                Some(names.len() - 1)
            } else {
                None
            },
        }
    }
}

/// The first unknown name has no column; without one, every name has.
pub proof fn lemma_first_unknown(t: Seq<ColumnView>, names: Seq<Seq<char>>)
    ensures
        match first_unknown(t, names) {
            Some(k) => 0 <= k < names.len() && column_position(t, names[k]) is None,
            None => all_found(t, names),
        },
    decreases names.len(),
{
    if names.len() > 0 {
        let p = names.drop_last();
        lemma_first_unknown(t, p);
        assert(forall|j: int| 0 <= j < p.len() ==> p[j] == names[j]);
        if first_unknown(t, p) is None && column_position(t, names.last()) is Some {
            assert forall|k: int| 0 <= k < names.len() implies (#[trigger] column_position(
                t,
                names[k],
            )) is Some by {
                if k < p.len() {
                    assert(column_position(t, p[k]) is Some);
                }
            }
        }
    }
}

/// Positions of the named columns; refused at the first unknown name.
pub fn find_columns(table: &DataTable, names: &Vec<String>) -> (r: Result<Vec<usize>, crate::error::TableError>)
    ensures
        match r {
            Ok(v) => all_found(table@, names.deep_view()) && v@ == positions_of(
                table@,
                names.deep_view(),
            ),
            Err(e) => first_unknown(table@, names.deep_view()) matches Some(k) && e matches crate::error::TableError::ColumnNotFound(
                n,
            ) && n@ == names.deep_view()[k],
        },
{
    let ghost ns = names.deep_view();
    let mut out: Vec<usize> = Vec::new();
    let mut k: usize = 0;
    while k < names.len()
        invariant
            ns == names.deep_view(),
            0 <= k <= names@.len(),
            first_unknown(table@, ns.take(k as int)) is None,
            out@ == positions_of(table@, ns.take(k as int)),
        decreases names.len() - k,
    {
        let ghost prev = ns.take(k as int);
        assert(ns.take(k + 1).drop_last() =~= prev);
        assert(ns.take(k + 1).last() == names@[k as int]@);
        match find_column(table, names[k].as_str()) {
            Some(i) => {
                out.push(i);
                assert(out@ =~= positions_of(table@, ns.take(k + 1)));
            },
            None => {
                proof {
                    lemma_first_unknown(table@, ns);
                    lemma_first_unknown(table@, prev);
                    assert(first_unknown(table@, ns.take(k + 1)) == Some(k as int));
                    lemma_first_unknown_prefix(table@, ns, (k + 1) as int);
                }
                return Err(crate::error::TableError::ColumnNotFound(names[k].clone()));
            },
        }
        k += 1;
    }
    assert(ns.take(names@.len() as int) =~= ns);
    proof {
        lemma_first_unknown(table@, ns);
    }
    Ok(out)
}

/// A first unknown name within a prefix is the first unknown name overall.
pub proof fn lemma_first_unknown_prefix(t: Seq<ColumnView>, names: Seq<Seq<char>>, n: int)
    requires
        0 <= n <= names.len(),
        first_unknown(t, names.take(n)) is Some,
    ensures
        first_unknown(t, names) == first_unknown(t, names.take(n)),
    decreases names.len() - n,
{
    if n < names.len() {
        assert(names.take(n + 1).drop_last() =~= names.take(n));
        lemma_first_unknown_prefix(t, names, n + 1);
    } else {
        assert(names.take(n) =~= names);
    }
}

/// A missing cell reads as the empty text.
pub open spec fn text_or_empty(v: Option<Seq<char>>) -> Seq<char> {
    match v {
        Some(s) => s,
        None => Seq::empty(),
    }
}

/// Cells joined with `|`, a missing cell as the empty text.
pub open spec fn row_signature_spec(row: Seq<Option<Seq<char>>>) -> Seq<char> {
    crate::text::join_spec(Seq::new(row.len(), |i: int| text_or_empty(row[i])), seq!['|'])
}

/// Texts of the cells, a missing cell as the empty text.
pub fn cell_texts(row: &Vec<Option<String>>) -> (r: Vec<String>)
    ensures
        r.deep_view() == Seq::new(row@.len(), |i: int| text_or_empty(row.deep_view()[i])),
{
    let mut out: Vec<String> = Vec::new();
    let mut i: usize = 0;
    while i < row.len()
        invariant
            0 <= i <= row@.len(),
            out@.len() == i,
            forall|k: int| 0 <= k < i ==> #[trigger] out@[k]@ == text_or_empty(row.deep_view()[k]),
        decreases row.len() - i,
    {
        match &row[i] {
            Some(s) => out.push(s.clone()),
            None => out.push(String::new()),
        }
        i += 1;
    }
    assert(out.deep_view() =~= Seq::new(row@.len(), |i: int| text_or_empty(row.deep_view()[i])));
    out
}

/// A row's cells joined with `|`; a missing cell contributes the empty text.
pub fn row_signature(row: &Vec<Option<String>>) -> (r: String)
    ensures
        r@ == row_signature_spec(row.deep_view()),
{
    let texts = cell_texts(row);
    proof {
        reveal_strlit("|");
        assert("|"@ =~= seq!['|']);
    }
    crate::text::join_texts(&texts, "|")
}

} // verus!
