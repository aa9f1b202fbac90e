//! Turning file contents into tables: the file format a path names, dataset
//! names, the delimiter of a CSV text, decoding bytes, and assembling a table
//! from a header row and body rows.

use vstd::prelude::*;
use crate::error::TableError;
use crate::inference::{build_table_from_rows, table_from_rows};
use crate::model::{ColumnView, DataTable};
use crate::number::decimal_spec;
use crate::schema::{normalize_headers, normalized_headers};
use crate::text::{
    all_ws, ascii_lower, concat, is_whitespace_char, is_ws, text_eq, to_ascii_lowercase, to_chars,
};

verus! {

/// The kinds of file that can be imported.
#[derive(Clone, Copy, Debug, PartialEq, Eq, Structural)]
pub enum FileFormat {
    Csv,
    Json,
    Xlsx,
}

/// The label of each file format.
pub open spec fn file_format_label(f: FileFormat) -> Seq<char> {
    match f {
        FileFormat::Csv => "CSV"@,
        FileFormat::Json => "JSON"@,
        FileFormat::Xlsx => "XLSX"@,
    }
}

/// What `Path::extension` gives for a path (as text, when it is valid text).
/// Which characters separate a path's parts is the target platform's choice:
/// fixed within one build, and no proof here depends on it.
pub uninterp spec fn extension_of(path: Seq<char>) -> Option<Seq<char>>;

/// What `Path::file_stem` gives for a path (as text, when it is valid text).
/// Which characters separate a path's parts is the target platform's choice:
/// fixed within one build, and no proof here depends on it.
pub uninterp spec fn stem_of(path: Seq<char>) -> Option<Seq<char>>;

/// Calls `Path::extension` on the path and keeps the result when it is text.
/// The result is named; how std splits a file name into stem and extension
/// is not restated here.
#[verifier::external_body]
fn path_extension(path: &str) -> (r: Option<String>)
    ensures
        r.deep_view() == extension_of(path@),
{
    std::path::Path::new(path).extension().and_then(|e| e.to_str()).map(|e| e.to_owned())
}

/// Calls `Path::file_stem` on the path and keeps the result when it is text.
/// The result is named; how std splits a file name into stem and extension
/// is not restated here.
#[verifier::external_body]
fn path_file_stem(path: &str) -> (r: Option<String>)
    ensures
        r.deep_view() == stem_of(path@),
{
    std::path::Path::new(path).file_stem().and_then(|e| e.to_str()).map(|e| e.to_owned())
}

/// The format an extension (in any ASCII case) names.
pub open spec fn format_of_extension(ext: Option<Seq<char>>) -> Option<FileFormat> {
    match ext {
        Some(e) => {
            let l = ascii_lower(e);
            if l == "csv"@ {
                Some(FileFormat::Csv)
            } else if l == "json"@ {
                Some(FileFormat::Json)
            } else if l == "xlsx"@ {
                Some(FileFormat::Xlsx)
            } else {
                None
            }
        },
        None => None,
    }
}

/// The format an extension (in any ASCII case) names, if any.
pub fn format_of_extension_text(ext: &str) -> (r: Option<FileFormat>)
    ensures
        r == format_of_extension(Some(ext@)),
{
    let l = to_ascii_lowercase(ext);
    if text_eq(l.as_str(), "csv") {
        Some(FileFormat::Csv)
    } else if text_eq(l.as_str(), "json") {
        Some(FileFormat::Json)
    } else if text_eq(l.as_str(), "xlsx") {
        Some(FileFormat::Xlsx)
    } else {
        None
    }
}

impl FileFormat {
    /// The format a path's extension names; other extensions are refused.
    pub fn from_path(path: &str) -> (r: Result<FileFormat, TableError>)
        ensures
            match format_of_extension(extension_of(path@)) {
                Some(f) => r == Ok::<FileFormat, TableError>(f),
                None => r == Err::<FileFormat, TableError>(TableError::UnsupportedFileType),
            },
    {
        match path_extension(path) {
            Some(e) => match format_of_extension_text(e.as_str()) {
                Some(f) => Ok(f),
                None => Err(TableError::UnsupportedFileType),
            },
            None => Err(TableError::UnsupportedFileType),
        }
    }

    /// The format's label.
    pub fn as_str(&self) -> (r: &'static str)
        ensures
            r@ == file_format_label(*self),
    {
        match self {
            FileFormat::Csv => "CSV",
            FileFormat::Json => "JSON",
            FileFormat::Xlsx => "XLSX",
        }
    }
}

/// The file stem of a path, or the fallback.
pub open spec fn stem_or(path: Seq<char>, fallback: Seq<char>) -> Seq<char> {
    match stem_of(path) {
        Some(s) => s,
        None => fallback,
    }
}

/// The file stem of a path, or the fallback when it has none.
pub fn path_stem_or_default(path: &str, fallback: &str) -> (r: String)
    ensures
        r@ == stem_or(path@, fallback@),
{
    match path_file_stem(path) {
        Some(s) => s,
        None => fallback.to_owned(),
    }
}

/// The dataset name of a sheet: the workbook's stem, followed by the sheet
/// name in brackets unless the two agree up to ASCII case.
pub open spec fn sheet_dataset_name(path: Seq<char>, sheet: Seq<char>) -> Seq<char> {
    let stem = stem_or(path, "xlsx_dataset"@);
    if ascii_lower(stem) == ascii_lower(sheet) {
        stem
    } else {
        stem + "["@ + sheet + "]"@
    }
}

/// The dataset name of a sheet (see `sheet_dataset_name`).
pub fn xlsx_dataset_name(path: &str, sheet_name: &str) -> (r: String)
    ensures
        r@ == sheet_dataset_name(path@, sheet_name@),
{
    let stem = path_stem_or_default(path, "xlsx_dataset");
    let a = to_ascii_lowercase(stem.as_str());
    let b = to_ascii_lowercase(sheet_name);
    if text_eq(a.as_str(), b.as_str()) {
        stem
    } else {
        let open = concat(stem.as_str(), "[");
        let named = concat(open.as_str(), sheet_name);
        concat(named.as_str(), "]")
    }
}

/// The longest row.
pub open spec fn max_row_len(rows: Seq<Seq<Option<Seq<char>>>>) -> nat
    decreases rows.len(),
{
    if rows.len() == 0 {
        0
    } else {
        let m = max_row_len(rows.drop_last());
        if rows.last().len() > m {
            rows.last().len()
        } else {
            m
        }
    }
}

/// The headers padded to `width` with `column_<position from 1>`.
pub open spec fn padded_headers(hs: Seq<Seq<char>>, width: nat) -> Seq<Seq<char>> {
    Seq::new(width, |c: int| if c < hs.len() { hs[c] } else { "column_"@ + decimal_spec((c + 1) as nat) })
}

/// The table of an imported file: as many columns as the normalised headers
/// or the longest row, whichever is more; missing headers are numbered,
/// short rows are padded with missing cells, and each column's type is
/// inferred from its cells.
pub open spec fn loaded_table(headers: Seq<Seq<char>>, rows: Seq<Seq<Option<Seq<char>>>>) -> Seq<ColumnView> {
    let hs = normalized_headers(headers);
    let width = if hs.len() > max_row_len(rows) {
        hs.len()
    } else {
        max_row_len(rows)
    };
    table_from_rows(padded_headers(hs, width), Seq::empty(), rows)
}

/// Assembles the table of an imported file (see `loaded_table`).
pub fn build_table(headers: Vec<String>, rows: Vec<Vec<Option<String>>>) -> (r: DataTable)
    ensures
        r@ == loaded_table(headers.deep_view(), rows.deep_view()),
{
    let normalized = normalize_headers(&headers);
    let ghost rv = rows.deep_view();
    let mut longest: usize = 0;
    let mut i: usize = 0;
    while i < rows.len()
        invariant
            0 <= i <= rv.len(),
            rv == rows.deep_view(),
            longest == max_row_len(rv.take(i as int)),
        decreases rows.len() - i,
    {
        assert(rv.take(i + 1).drop_last() =~= rv.take(i as int));
        assert(rv.take(i + 1).last().len() == rows@[i as int]@.len());
        if rows[i].len() > longest {
            longest = rows[i].len();
        }
        i += 1;
    }
    assert(rv.take(rv.len() as int) =~= rv);
    let width = if normalized.len() > longest {
        normalized.len()
    } else {
        longest
    };
    let ghost hs = normalized.deep_view();
    let mut names: Vec<String> = Vec::new();
    let mut c: usize = 0;
    while c < width
        invariant
            0 <= c <= width,
            hs == normalized.deep_view(),
            names.deep_view() == padded_headers(hs, width as nat).take(c as int),
        decreases width - c,
    {
        let ghost before = names.deep_view();
        if c < normalized.len() {
            names.push(normalized[c].clone());
        } else {
            names.push(crate::number::append_number("column_", c + 1));
        }
        assert(names.deep_view() =~= before.push(padded_headers(hs, width as nat)[c as int]));
        assert(padded_headers(hs, width as nat).take(c + 1) =~= padded_headers(hs, width as nat).take(
            c as int,
        ).push(padded_headers(hs, width as nat)[c as int]));
        c += 1;
    }
    assert(padded_headers(hs, width as nat).take(width as int) =~= padded_headers(hs, width as nat));
    let types: Vec<crate::model::LogicalType> = Vec::new();
    assert(types@ =~= Seq::<crate::model::LogicalType>::empty());
    build_table_from_rows(names, types, rows)
}

} // verus!

verus! {

/// The lines of a text: the pieces between line feeds.
pub open spec fn text_lines(s: Seq<char>) -> Seq<Seq<char>>
    decreases s.len(),
{
    if s.len() == 0 {
        seq![Seq::<char>::empty()]
    } else {
        let p = text_lines(s.drop_last());
        if s.last() == '\n' {
            p.push(Seq::<char>::empty())
        } else {
            p.update(p.len() - 1, p.last().push(s.last()))
        }
    }
}

/// The lines that hold a character other than white space.
pub open spec fn nonblank_lines(ls: Seq<Seq<char>>) -> Seq<Seq<char>>
    decreases ls.len(),
{
    if ls.len() == 0 {
        Seq::empty()
    } else {
        let k = nonblank_lines(ls.drop_last());
        if all_ws(ls.last()) {
            k
        } else {
            k.push(ls.last())
        }
    }
}

/// The lines a delimiter is guessed from: the first twelve that are not blank.
pub open spec fn sample_lines(s: Seq<char>) -> Seq<Seq<char>> {
    let n = nonblank_lines(text_lines(s));
    n.take(if n.len() < 12 { n.len() as int } else { 12 })
}

/// How often a character occurs in a text.
pub open spec fn count_char(s: Seq<char>, c: char) -> nat
    decreases s.len(),
{
    if s.len() == 0 {
        0
    } else {
        count_char(s.drop_last(), c) + if s.last() == c {
            1nat
        } else {
            0nat
        }
    }
}

/// How often a character occurs in all the lines.
pub open spec fn char_score(ls: Seq<Seq<char>>, c: char) -> nat
    decreases ls.len(),
{
    if ls.len() == 0 {
        0
    } else {
        char_score(ls.drop_last(), c) + count_char(ls.last(), c)
    }
}

/// The delimiter of a CSV text: of `,` `;` tab and `|`, the one that occurs
/// most often in the sample lines; on a tie the later of these four wins.
pub open spec fn delimiter_of(s: Seq<char>) -> u8 {
    let ls = sample_lines(s);
    let a = char_score(ls, ',');
    let b = char_score(ls, ';');
    let t = char_score(ls, '\t');
    let p = char_score(ls, '|');
    let (d1, m1) = if b >= a { (59u8, b) } else { (44u8, a) };
    let (d2, m2) = if t >= m1 { (9u8, t) } else { (d1, m1) };
    if p >= m2 { 124u8 } else { d2 }
}

/// `x` is the beginning of `y`.
pub open spec fn starts(y: Seq<Seq<char>>, x: Seq<Seq<char>>) -> bool {
    x.len() <= y.len() && y.take(x.len() as int) == x
}

proof fn lemma_text_lines_nonempty(s: Seq<char>)
    ensures
        text_lines(s).len() >= 1,
    decreases s.len(),
{
    if s.len() > 0 {
        lemma_text_lines_nonempty(s.drop_last());
    }
}

/// The completed lines of a prefix begin the completed lines of the text.
proof fn lemma_lines_prefix(s: Seq<char>, i: int)
    requires
        0 <= i <= s.len(),
    ensures
        starts(text_lines(s).drop_last(), text_lines(s.take(i)).drop_last()),
    decreases s.len(),
{
    lemma_text_lines_nonempty(s);
    if i == s.len() {
        assert(s.take(i) =~= s);
        assert(text_lines(s).drop_last().take(text_lines(s).drop_last().len() as int) =~= text_lines(
            s,
        ).drop_last());
    } else {
        let s2 = s.drop_last();
        assert(s2.take(i) =~= s.take(i));
        lemma_lines_prefix(s2, i);
        lemma_text_lines_nonempty(s2);
        let p = text_lines(s2);
        let x = text_lines(s.take(i)).drop_last();
        if s.last() == '\n' {
            assert(text_lines(s).drop_last() =~= p);
            assert(p.take(x.len() as int) =~= p.drop_last().take(x.len() as int));
        } else {
            assert(text_lines(s).drop_last() =~= p.drop_last());
        }
    }
}

proof fn lemma_nonblank_prefix(y: Seq<Seq<char>>, x: Seq<Seq<char>>)
    requires
        starts(y, x),
    ensures
        starts(nonblank_lines(y), nonblank_lines(x)),
    decreases y.len(),
{
    if y.len() == x.len() {
        assert(y.take(x.len() as int) =~= y);
        let n = nonblank_lines(y);
        assert(n.take(n.len() as int) =~= n);
    } else {
        let y2 = y.drop_last();
        assert(y2.take(x.len() as int) =~= y.take(x.len() as int));
        lemma_nonblank_prefix(y2, x);
        let n2 = nonblank_lines(y2);
        let nx = nonblank_lines(x);
        if !all_ws(y.last()) {
            assert(n2.push(y.last()).take(nx.len() as int) =~= n2.take(nx.len() as int));
        }
    }
}

proof fn lemma_lines_last_start(s: Seq<char>)
    ensures
        starts(text_lines(s), text_lines(s).drop_last()),
{
    lemma_text_lines_nonempty(s);
    let p = text_lines(s);
    assert(p.take(p.drop_last().len() as int) =~= p.drop_last());
}

/// Guesses the delimiter of a CSV text (see `delimiter_of`).
pub fn guess_delimiter(content: &str) -> (r: u8)
    ensures
        r == delimiter_of(content@),
{
    let v = to_chars(content);
    let ghost s = v@;
    let mut comma: usize = 0;
    let mut semi: usize = 0;
    let mut tab: usize = 0;
    let mut bar: usize = 0;
    let mut c_comma: usize = 0;
    let mut c_semi: usize = 0;
    let mut c_tab: usize = 0;
    let mut c_bar: usize = 0;
    let mut blank = true;
    let mut taken: usize = 0;
    let mut i: usize = 0;
    assert(s.take(0) =~= Seq::<char>::empty());
    while i < v.len() && taken < 12
        invariant
            s == v@,
            s == content@,
            0 <= i <= s.len(),
            taken <= 12,
            text_lines(s.take(i as int)).len() >= 1,
            taken == nonblank_lines(text_lines(s.take(i as int)).drop_last()).len(),
            comma == char_score(nonblank_lines(text_lines(s.take(i as int)).drop_last()), ','),
            semi == char_score(nonblank_lines(text_lines(s.take(i as int)).drop_last()), ';'),
            tab == char_score(nonblank_lines(text_lines(s.take(i as int)).drop_last()), '\t'),
            bar == char_score(nonblank_lines(text_lines(s.take(i as int)).drop_last()), '|'),
            c_comma == count_char(text_lines(s.take(i as int)).last(), ','),
            c_semi == count_char(text_lines(s.take(i as int)).last(), ';'),
            c_tab == count_char(text_lines(s.take(i as int)).last(), '\t'),
            c_bar == count_char(text_lines(s.take(i as int)).last(), '|'),
            blank == all_ws(text_lines(s.take(i as int)).last()),
            comma + c_comma <= i,
            semi + c_semi <= i,
            tab + c_tab <= i,
            bar + c_bar <= i,
        decreases v.len() - i,
    {
        let c = v[i];
        let ghost p = text_lines(s.take(i as int));
        assert(s.take(i + 1).drop_last() =~= s.take(i as int));
        assert(s.take(i + 1).last() == c);
        if c == '\n' {
            let ghost q = p.push(Seq::<char>::empty());
            assert(q.drop_last() =~= p);
            assert(p =~= p.drop_last().push(p.last()));
            let ghost nb = nonblank_lines(p.drop_last());
            assert(nb.push(p.last()).drop_last() =~= nb);
            if !blank {
                comma += c_comma;
                semi += c_semi;
                tab += c_tab;
                bar += c_bar;
                taken += 1;
            }
            c_comma = 0;
            c_semi = 0;
            c_tab = 0;
            c_bar = 0;
            blank = true;
            assert(q.last() =~= Seq::<char>::empty());
        } else {
            let ghost l = p.last().push(c);
            let ghost q = p.update(p.len() - 1, l);
            assert(q.drop_last() =~= p.drop_last());
            assert(q.last() == l);
            assert(l.drop_last() =~= p.last());
            if c == ',' {
                c_comma += 1;
            } else if c == ';' {
                c_semi += 1;
            } else if c == '\t' {
                c_tab += 1;
            } else if c == '|' {
                c_bar += 1;
            }
            let w = is_whitespace_char(c);
            assert(all_ws(l) == (all_ws(p.last()) && is_ws(c))) by {
                if all_ws(l) {
                    assert forall|k: int| 0 <= k < p.last().len() implies is_ws(#[trigger] p.last()[k]) by {
                        assert(l[k] == p.last()[k]);
                    }
                    assert(l[l.len() - 1] == c);
                }
            }
            blank = blank && w;
        }
        i += 1;
    }
    proof {
        lemma_text_lines_nonempty(s);
    }
    let ghost n_all = nonblank_lines(text_lines(s));
    if taken < 12 {
        assert(i == s.len());
        assert(s.take(i as int) =~= s);
        let ghost p = text_lines(s);
        assert(p =~= p.drop_last().push(p.last()));
        let ghost nb = nonblank_lines(p.drop_last());
        assert(nb.push(p.last()).drop_last() =~= nb);
        if !blank {
            comma += c_comma;
            semi += c_semi;
            tab += c_tab;
            bar += c_bar;
            taken += 1;
        }
        assert(n_all.take(n_all.len() as int) =~= n_all);
    } else {
        proof {
            let x = text_lines(s.take(i as int)).drop_last();
            lemma_lines_prefix(s, i as int);
            lemma_lines_last_start(s);
            lemma_nonblank_prefix(text_lines(s).drop_last(), x);
            lemma_nonblank_prefix(text_lines(s), text_lines(s).drop_last());
            assert(n_all.take(12) =~= nonblank_lines(x));
        }
    }
    assert(sample_lines(s) == nonblank_lines(text_lines(s)).take(
        if n_all.len() < 12 { n_all.len() as int } else { 12 },
    ));
    let mut best: u8 = 44;
    let mut m: usize = comma;
    if semi >= m {
        best = 59;
        m = semi;
    }
    if tab >= m {
        best = 9;
        m = tab;
    }
    if bar >= m {
        best = 124;
    }
    best
}

} // verus!

verus! {

/// The text encoding_rs's GBK decoder gives for the bytes (with its byte
/// order mark sniffing and replacement of malformed sequences).
pub uninterp spec fn gbk_decoding(bytes: Seq<u8>) -> Seq<char>;

/// Calls `String::from_utf8`: text exactly when the bytes are valid UTF-8,
/// and then the text they encode.
#[verifier::external_body]
fn utf8_text(bytes: &[u8]) -> (r: Option<String>)
    ensures
        r is Some <==> vstd::utf8::valid_utf8(bytes@),
        r matches Some(s) ==> s@ == vstd::utf8::decode_utf8(bytes@),
{
    String::from_utf8(bytes.to_vec()).ok()
}

/// Calls `encoding_rs::GBK.decode` and keeps the text. The result is named;
/// GBK's tables are not restated. The bound on the length keeps the
/// decoder's buffer size computation from overflowing, where it panics.
#[verifier::external_body]
fn gbk_text(bytes: &[u8]) -> (r: String)
    requires
        bytes@.len() <= usize::MAX / 8,
    ensures
        r@ == gbk_decoding(bytes@),
{
    encoding_rs::GBK.decode(bytes).0.into_owned()
}

/// The text of a file's bytes: UTF-8 when they are valid UTF-8, else GBK.
pub open spec fn decoded_text(bytes: Seq<u8>) -> Seq<char> {
    if vstd::utf8::valid_utf8(bytes) {
        vstd::utf8::decode_utf8(bytes)
    } else {
        gbk_decoding(bytes)
    }
}

/// Decodes a file's bytes (see `decoded_text`).
pub fn decode_text_bytes(bytes: &[u8]) -> (r: String)
    requires
        bytes@.len() <= usize::MAX / 8,
    ensures
        r@ == decoded_text(bytes@),
{
    match utf8_text(bytes) {
        Some(text) => text,
        None => gbk_text(bytes),
    }
}

#[verifier::external_type_specification]
#[verifier::external_body]
pub struct ExCsvError(csv::Error);

/// The header record and the records the csv crate reads from a text with
/// this delimiter, records of any length allowed; none when it reports an
/// error.
pub uninterp spec fn csv_records(content: Seq<char>, delimiter: u8) -> Option<(Seq<Seq<char>>, Seq<Seq<Seq<char>>>)>;

/// Reads a CSV text with the csv crate: a flexible reader with the given
/// delimiter, its header record, then every record until the end or the
/// first error. What it reads is named; the CSV grammar is not restated.
#[verifier::external_body]
fn read_csv(content: &str, delimiter: u8) -> (r: Result<(Vec<String>, Vec<Vec<String>>), csv::Error>)
    ensures
        match r {
            Ok((h, rows)) => csv_records(content@, delimiter) == Some((h.deep_view(), rows.deep_view())),
            Err(_) => csv_records(content@, delimiter) is None,
        },
{
    let mut reader = csv::ReaderBuilder::new().delimiter(delimiter).flexible(true).from_reader(
        content.as_bytes(),
    );
    let headers = reader.headers()?.iter().map(|v| v.to_owned()).collect();
    let mut rows = Vec::new();
    for record in reader.records() {
        rows.push(record?.iter().map(|v| v.to_owned()).collect());
    }
    Ok((headers, rows))
}

/// A CSV field as a cell: missing when it is a null word, else trimmed.
pub open spec fn csv_cell(v: Seq<char>) -> Option<Seq<char>> {
    if crate::inference::null_word(v) {
        None
    } else {
        Some(crate::text::trim_spec(v))
    }
}

/// The cells of CSV records.
pub open spec fn csv_cells(rows: Seq<Seq<Seq<char>>>) -> Seq<Seq<Option<Seq<char>>>> {
    rows.map_values(|row: Seq<Seq<char>>| row.map_values(|v: Seq<char>| csv_cell(v)))
}

/// The table of a CSV file's bytes: decoded, its delimiter guessed, read by
/// the csv crate, null words made missing and other fields trimmed.
pub open spec fn csv_table(bytes: Seq<u8>) -> Option<Seq<ColumnView>> {
    let text = decoded_text(bytes);
    match csv_records(text, delimiter_of(text)) {
        Some((h, rows)) => Some(loaded_table(h, csv_cells(rows))),
        None => None,
    }
}

/// The cells of one CSV record (see `csv_cell`).
pub fn record_cells(row: &Vec<String>) -> (r: Vec<Option<String>>)
    ensures
        r.deep_view() == row.deep_view().map_values(|v: Seq<char>| csv_cell(v)),
{
    let mut out: Vec<Option<String>> = Vec::new();
    let mut i: usize = 0;
    while i < row.len()
        invariant
            0 <= i <= row@.len(),
            out.deep_view() == row.deep_view().take(i as int).map_values(|v: Seq<char>| csv_cell(v)),
        decreases row.len() - i,
    {
        let ghost before = out.deep_view();
        let cell = if crate::inference::null_marked(row[i].as_str()) {
            None
        } else {
            Some(crate::text::trim(row[i].as_str()))
        };
        out.push(cell);
        assert(out.deep_view() =~= before.push(csv_cell(row@[i as int]@)));
        assert(row.deep_view().take(i + 1).map_values(|v: Seq<char>| csv_cell(v)) =~= row.deep_view().take(
            i as int,
        ).map_values(|v: Seq<char>| csv_cell(v)).push(csv_cell(row@[i as int]@)));
        i += 1;
    }
    assert(row.deep_view().take(row@.len() as int) =~= row.deep_view());
    out
}

/// The cells of CSV records: null words become missing, other fields are
/// trimmed (see `csv_cells`).
pub fn csv_record_cells(records: &Vec<Vec<String>>) -> (r: Vec<Vec<Option<String>>>)
    ensures
        r.deep_view() == csv_cells(records.deep_view()),
{
    let ghost rv = records.deep_view();
    let mut rows: Vec<Vec<Option<String>>> = Vec::new();
    let mut i: usize = 0;
    while i < records.len()
        invariant
            0 <= i <= rv.len(),
            rv == records.deep_view(),
            rows.deep_view() == csv_cells(rv.take(i as int)),
        decreases records.len() - i,
    {
        let ghost before = rows.deep_view();
        let cells = record_cells(&records[i]);
        rows.push(cells);
        assert(rows.deep_view() =~= before.push(cells.deep_view()));
        assert(csv_cells(rv.take(i + 1)) =~= csv_cells(rv.take(i as int)).push(
            rv[i as int].map_values(|v: Seq<char>| csv_cell(v)),
        ));
        i += 1;
    }
    assert(rv.take(rv.len() as int) =~= rv);
    rows
}

/// Reads the table of a CSV file's bytes (see `csv_table`).
pub fn parse_csv_table(bytes: &[u8]) -> (r: Result<DataTable, TableError>)
    requires
        bytes@.len() <= usize::MAX / 8,
    ensures
        match csv_table(bytes@) {
            Some(t) => r matches Ok(table) && table@ == t,
            None => r == Err::<DataTable, TableError>(TableError::CsvUnreadable),
        },
{
    let text = decode_text_bytes(bytes);
    let delimiter = guess_delimiter(text.as_str());
    match read_csv(text.as_str(), delimiter) {
        Ok((headers, records)) => {
            let rows = csv_record_cells(&records);
            Ok(build_table(headers, rows))
        },
        Err(_) => Err(TableError::CsvUnreadable),
    }
}

/// A spreadsheet cell's text as a cell: missing when it is a null word.
pub open spec fn sheet_cell(v: Seq<char>) -> Option<Seq<char>> {
    if crate::inference::null_word(v) {
        None
    } else {
        Some(v)
    }
}

/// The table of a sheet whose cells are given as text, row by row: the first
/// row holds the headers. None for a sheet without rows or without columns.
pub open spec fn sheet_table_spec(rows: Seq<Seq<Seq<char>>>) -> Option<Seq<ColumnView>> {
    if rows.len() == 0 {
        None
    } else {
        let body = rows.skip(1).map_values(|row: Seq<Seq<char>>| row.map_values(|v: Seq<char>| sheet_cell(v)));
        let t = loaded_table(rows[0], body);
        if t.len() == 0 {
            None
        } else {
            Some(t)
        }
    }
}

fn sheet_row_cells(row: &Vec<String>) -> (r: Vec<Option<String>>)
    ensures
        r.deep_view() == row.deep_view().map_values(|v: Seq<char>| sheet_cell(v)),
{
    let mut out: Vec<Option<String>> = Vec::new();
    let mut i: usize = 0;
    while i < row.len()
        invariant
            0 <= i <= row@.len(),
            out.deep_view() == row.deep_view().take(i as int).map_values(|v: Seq<char>| sheet_cell(v)),
        decreases row.len() - i,
    {
        let ghost before = out.deep_view();
        let cell = if crate::inference::null_marked(row[i].as_str()) {
            None
        } else {
            Some(row[i].clone())
        };
        out.push(cell);
        assert(out.deep_view() =~= before.push(sheet_cell(row@[i as int]@)));
        assert(row.deep_view().take(i + 1).map_values(|v: Seq<char>| sheet_cell(v)) =~= row.deep_view().take(
            i as int,
        ).map_values(|v: Seq<char>| sheet_cell(v)).push(sheet_cell(row@[i as int]@)));
        i += 1;
    }
    assert(row.deep_view().take(row@.len() as int) =~= row.deep_view());
    out
}

/// Builds the table of a sheet (see `sheet_table_spec`).
pub fn sheet_table(rows: &Vec<Vec<String>>) -> (r: Option<DataTable>)
    ensures
        match sheet_table_spec(rows.deep_view()) {
            Some(t) => r matches Some(table) && table@ == t,
            None => r is None,
        },
{
    if rows.len() == 0 {
        return None;
    }
    let ghost rv = rows.deep_view();
    let headers = rows[0].clone();
    let mut body: Vec<Vec<Option<String>>> = Vec::new();
    let mut i: usize = 1;
    let ghost f = |row: Seq<Seq<char>>| row.map_values(|v: Seq<char>| sheet_cell(v));
    while i < rows.len()
        invariant
            1 <= i <= rv.len(),
            rv == rows.deep_view(),
            f == (|row: Seq<Seq<char>>| row.map_values(|v: Seq<char>| sheet_cell(v))),
            body.deep_view() == rv.skip(1).take(i - 1).map_values(f),
        decreases rows.len() - i,
    {
        let ghost before = body.deep_view();
        let cells = sheet_row_cells(&rows[i]);
        body.push(cells);
        assert(body.deep_view() =~= before.push(f(rv[i as int])));
        assert(rv.skip(1).take(i as int).map_values(f) =~= rv.skip(1).take(i - 1).map_values(f).push(
            f(rv[i as int]),
        ));
        i += 1;
    }
    assert(rv.skip(1).take(rv.len() - 1) =~= rv.skip(1));
    let table = build_table(headers, body);
    if table.columns.len() == 0 {
        None
    } else {
        Some(table)
    }
}

} // verus!
