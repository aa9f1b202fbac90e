//! Rewrites of a single cell: each function maps one optional text to another,
//! with the exact result stated over character sequences.

use vstd::prelude::*;
use crate::datetime::{
    datetime_text, datetime_to_text, parse_datetime_or_timestamp, parse_timestamp_value,
    parsed_moment, parsed_timestamp, DateTimeParts,
};
use crate::number::{int_text_spec, i64_to_text, is_digit, is_digit_char, parse_i64, parse_int_spec};
use crate::rows::{cell_blank, cell_blank_exec};
use crate::text::{
    ascii_lower, concat, find_chars_from, find_text, is_blank, lemma_find_from, occurs_at, push_char,
    replace_all, replace_spec, squeeze_spec, squeeze_whitespace, string_from_range, take_chars,
    text_eq, to_ascii_lowercase, to_chars, trim, trim_spec,
};

verus! {

/// What `str::to_uppercase` returns for a text.
pub uninterp spec fn unicode_upper(s: Seq<char>) -> Seq<char>;

/// What `str::to_lowercase` returns for a text.
pub uninterp spec fn unicode_lower(s: Seq<char>) -> Seq<char>;

/// Calls `str::to_uppercase`; its result (full Unicode case mapping) is named,
/// not described.
#[verifier::external_body]
fn upper_case(s: &str) -> (r: String)
    ensures
        r@ == unicode_upper(s@),
{
    s.to_uppercase()
}

/// Calls `str::to_lowercase`; its result (full Unicode case mapping) is named,
/// not described.
#[verifier::external_body]
fn lower_case(s: &str) -> (r: String)
    ensures
        r@ == unicode_lower(s@),
{
    s.to_lowercase()
}

/// Text kept as a cell only when it is not empty.
pub open spec fn non_empty_cell(s: Seq<char>) -> Option<Seq<char>> {
    if s.len() == 0 {
        None
    } else {
        Some(s)
    }
}

/// `str::split_once`: the text before and after the leftmost occurrence of `d`.
pub open spec fn split_once_spec(s: Seq<char>, d: Seq<char>) -> Option<(Seq<char>, Seq<char>)> {
    match find_text(s, d) {
        Some(i) => Some((s.take(i), s.skip(i + d.len()))),
        None => None,
    }
}

/// The ASCII digits of a text, in order.
pub open spec fn digits_only(s: Seq<char>) -> Seq<char>
    decreases s.len(),
{
    if s.len() == 0 {
        s
    } else if is_digit(s.last()) {
        digits_only(s.drop_last()).push(s.last())
    } else {
        digits_only(s.drop_last())
    }
}

/// Words read as a boolean when converting a column: trimmed, ASCII case ignored.
pub open spec fn bool_word(s: Seq<char>) -> Option<bool> {
    let w = ascii_lower(trim_spec(s));
    if w == "true"@ || w == "1"@ || w == "yes"@ || w == "y"@ || w == "t"@ || w == "on"@ || w
        == "是"@ || w == "开"@ {
        Some(true)
    } else if w == "false"@ || w == "0"@ || w == "no"@ || w == "n"@ || w == "f"@ || w == "off"@
        || w == "否"@ || w == "关"@ {
        Some(false)
    } else {
        None
    }
}

/// Reads a boolean word (see `bool_word`).
pub fn parse_bool_text(value: &str) -> (r: Option<bool>)
    ensures
        r == bool_word(value@),
{
    let t = trim(value);
    let w = to_ascii_lowercase(t.as_str());
    let s = w.as_str();
    if text_eq(s, "true") || text_eq(s, "1") || text_eq(s, "yes") || text_eq(s, "y") || text_eq(
        s,
        "t",
    ) || text_eq(s, "on") || text_eq(s, "是") || text_eq(s, "开") {
        Some(true)
    } else if text_eq(s, "false") || text_eq(s, "0") || text_eq(s, "no") || text_eq(s, "n")
        || text_eq(s, "f") || text_eq(s, "off") || text_eq(s, "否") || text_eq(s, "关") {
        Some(false)
    } else {
        None
    }
}

/// A copy of a text.
pub fn owned(s: &str) -> (r: String)
    ensures
        r@ == s@,
{
    s.to_owned()
}

/// Text of a boolean, as `bool::to_string` writes it.
pub open spec fn bool_text(b: bool) -> Seq<char> {
    if b {
        "true"@
    } else {
        "false"@
    }
}

/// `bool::to_string`: "true" or "false".
pub fn bool_to_text(b: bool) -> (r: String)
    ensures
        r@ == bool_text(b),
{
    if b {
        owned("true")
    } else {
        owned("false")
    }
}

/// The ASCII digits of a text.
pub fn keep_digits(s: &str) -> (r: String)
    ensures
        r@ == digits_only(s@),
{
    let v = to_chars(s);
    let mut out = String::new();
    let mut i: usize = 0;
    while i < v.len()
        invariant
            v@ == s@,
            0 <= i <= v@.len(),
            out@ == digits_only(s@.take(i as int)),
        decreases v.len() - i,
    {
        assert(s@.take(i + 1).drop_last() =~= s@.take(i as int));
        if is_digit_char(v[i]) {
            push_char(&mut out, v[i]);
        }
        i += 1;
    }
    assert(s@.take(v@.len() as int) =~= s@);
    out
}

/// `str::split_once` with a text delimiter.
pub fn split_once(s: &str, d: &str) -> (r: Option<(String, String)>)
    ensures
        match r {
            Some((a, b)) => split_once_spec(s@, d@) == Some((a@, b@)),
            None => split_once_spec(s@, d@) is None,
        },
{
    let h = to_chars(s);
    let n = to_chars(d);
    match find_chars_from(&h, &n, 0) {
        Some(i) => {
            proof {
                lemma_find_from(s@, d@, 0);
                assert(occurs_at(s@, d@, i as int));
            }
            let total = h.len();
            assert(i + n@.len() <= total);
            let left = string_from_range(&h, 0, i);
            let right = string_from_range(&h, i + n.len(), total);
            assert(left@ =~= s@.take(i as int));
            assert(right@ =~= s@.skip(i + d@.len()));
            Some((left, right))
        },
        None => None,
    }
}

/// The edits that rewrite every cell of one column.
pub enum CellEdit {
    /// A blank cell (missing or whitespace only) takes the given text.
    FillBlank(String),
    /// A present cell that trims to nothing becomes missing.
    BlankToMissing,
    /// A cell whose trimmed text equals the trimmed `from` becomes `to`
    /// (missing when `to` trims to nothing).
    ReplaceExact(String, String),
    /// A cell holding an integer becomes that integer written with `.0`.
    IntegerToFloat,
    /// A cell holding a boolean word becomes `true` or `false`.
    ToBoolean,
    /// Unicode upper case.
    Upper,
    /// Unicode lower case.
    Lower,
    /// Every occurrence of the first text becomes the second (first non-empty).
    ReplaceText(String, String),
    /// Whitespace runs collapse to one space; an empty result is missing.
    SqueezeWhitespace,
    /// Keeps the (trimmed) text before the first delimiter; empty is missing.
    TextBefore(String),
    /// Keeps the (trimmed) text after the first delimiter; empty is missing.
    TextAfter(String),
    /// Keeps the ASCII digits; no digit leaves the cell missing.
    DigitsOnly,
    /// Wraps the text in a prefix and a suffix.
    Affix(String, String),
    /// Keeps the first characters.
    Truncate(usize),
    /// A cell read as a date-time (by pattern or timestamp) is rewritten as
    /// `%Y-%m-%d %H:%M:%S`.
    NormalizeDateTime,
    /// A cell read as a timestamp is rewritten as `%Y-%m-%d %H:%M:%S`.
    TimestampToDateTime,
}

/// Abstract value of a `CellEdit`.
pub enum EditView {
    FillBlank(Seq<char>),
    BlankToMissing,
    ReplaceExact(Seq<char>, Seq<char>),
    IntegerToFloat,
    ToBoolean,
    Upper,
    Lower,
    ReplaceText(Seq<char>, Seq<char>),
    SqueezeWhitespace,
    TextBefore(Seq<char>),
    TextAfter(Seq<char>),
    DigitsOnly,
    Affix(Seq<char>, Seq<char>),
    Truncate(nat),
    NormalizeDateTime,
    TimestampToDateTime,
}

impl View for CellEdit {
    type V = EditView;

    open spec fn view(&self) -> EditView {
        match self {
            CellEdit::FillBlank(s) => EditView::FillBlank(s@),
            CellEdit::BlankToMissing => EditView::BlankToMissing,
            CellEdit::ReplaceExact(a, b) => EditView::ReplaceExact(a@, b@),
            CellEdit::IntegerToFloat => EditView::IntegerToFloat,
            CellEdit::ToBoolean => EditView::ToBoolean,
            CellEdit::Upper => EditView::Upper,
            CellEdit::Lower => EditView::Lower,
            CellEdit::ReplaceText(a, b) => EditView::ReplaceText(a@, b@),
            CellEdit::SqueezeWhitespace => EditView::SqueezeWhitespace,
            CellEdit::TextBefore(d) => EditView::TextBefore(d@),
            CellEdit::TextAfter(d) => EditView::TextAfter(d@),
            CellEdit::DigitsOnly => EditView::DigitsOnly,
            CellEdit::Affix(a, b) => EditView::Affix(a@, b@),
            CellEdit::Truncate(n) => EditView::Truncate(*n as nat),
            CellEdit::NormalizeDateTime => EditView::NormalizeDateTime,
            CellEdit::TimestampToDateTime => EditView::TimestampToDateTime,
        }
    }
}

/// An edit can run: the texts it searches for are not empty.
pub open spec fn edit_ok(e: EditView) -> bool {
    match e {
        EditView::ReplaceText(from, _) => from.len() > 0,
        EditView::TextBefore(d) => d.len() > 0,
        EditView::TextAfter(d) => d.len() > 0,
        _ => true,
    }
}

/// The part of a delimited text that an extraction keeps, trimmed.
pub open spec fn extract_part(s: Seq<char>, d: Seq<char>, before: bool) -> Seq<char> {
    match split_once_spec(s, d) {
        Some((a, b)) => if before {
            trim_spec(a)
        } else {
            trim_spec(b)
        },
        None => trim_spec(s),
    }
}

/// A present cell rewritten in the standard date-time format when `parsed`
/// reads it (after trimming) and chrono writes the moment.
pub open spec fn reformatted(s: Seq<char>, parsed: Option<DateTimeParts>) -> Option<Seq<char>> {
    match parsed {
        Some(p) => match datetime_text(p) {
            Some(t) => Some(t),
            None => Some(s),
        },
        None => Some(s),
    }
}

/// The cell an edit makes of `v`.
pub open spec fn edit_spec(e: EditView, v: Option<Seq<char>>) -> Option<Seq<char>> {
    match e {
        EditView::FillBlank(fill) => if cell_blank(v) {
            Some(fill)
        } else {
            v
        },
        EditView::BlankToMissing => match v {
            Some(s) => if trim_spec(s).len() == 0 {
                None
            } else {
                v
            },
            None => None,
        },
        EditView::ReplaceExact(from, to) => match v {
            Some(s) => if trim_spec(s) == trim_spec(from) {
                if trim_spec(to).len() == 0 {
                    None
                } else {
                    Some(to)
                }
            } else {
                v
            },
            None => None,
        },
        EditView::IntegerToFloat => match v {
            Some(s) => match parse_int_spec(trim_spec(s)) {
                Some(n) => Some(int_text_spec(n) + ".0"@),
                None => v,
            },
            None => None,
        },
        EditView::ToBoolean => match v {
            Some(s) => match bool_word(s) {
                Some(b) => Some(bool_text(b)),
                None => v,
            },
            None => None,
        },
        EditView::Upper => match v {
            Some(s) => Some(unicode_upper(s)),
            None => None,
        },
        EditView::Lower => match v {
            Some(s) => Some(unicode_lower(s)),
            None => None,
        },
        EditView::ReplaceText(from, to) => match v {
            Some(s) => Some(replace_spec(s, from, to)),
            None => None,
        },
        EditView::SqueezeWhitespace => match v {
            Some(s) => non_empty_cell(squeeze_spec(s, ' ')),
            None => None,
        },
        EditView::TextBefore(d) => match v {
            Some(s) => non_empty_cell(extract_part(s, d, true)),
            None => None,
        },
        EditView::TextAfter(d) => match v {
            Some(s) => non_empty_cell(extract_part(s, d, false)),
            None => None,
        },
        EditView::DigitsOnly => match v {
            Some(s) => non_empty_cell(digits_only(s)),
            None => None,
        },
        EditView::Affix(prefix, suffix) => match v {
            Some(s) => Some(prefix + s + suffix),
            None => None,
        },
        EditView::Truncate(n) => match v {
            Some(s) => Some(
                s.take(
                    if n <= s.len() {
                        n as int
                    } else {
                        s.len() as int
                    },
                ),
            ),
            None => None,
        },
        EditView::NormalizeDateTime => match v {
            Some(s) => reformatted(s, parsed_moment(trim_spec(s))),
            None => None,
        },
        EditView::TimestampToDateTime => match v {
            Some(s) => reformatted(s, parsed_timestamp(trim_spec(s))),
            None => None,
        },
    }
}

/// Text kept as a cell only when it is not empty.
pub fn non_empty(s: String) -> (r: Option<String>)
    ensures
        r.deep_view() == non_empty_cell(s@),
{
    if s.as_str().is_empty() {
        None
    } else {
        Some(s)
    }
}

fn extract(s: &str, d: &str, before: bool) -> (r: String)
    ensures
        r@ == extract_part(s@, d@, before),
{
    match split_once(s, d) {
        Some((a, b)) => if before {
            trim(a.as_str())
        } else {
            trim(b.as_str())
        },
        None => trim(s),
    }
}

fn reformat(s: &String, parsed: Option<DateTimeParts>) -> (r: Option<String>)
    ensures
        r.deep_view() == reformatted(s@, parsed),
{
    match parsed {
        Some(p) => match datetime_to_text(p) {
            Some(t) => Some(t),
            None => Some(s.clone()),
        },
        None => Some(s.clone()),
    }
}

/// Applies an edit to one cell.
pub fn apply_edit(e: &CellEdit, v: &Option<String>) -> (r: Option<String>)
    requires
        edit_ok(e@),
    ensures
        r.deep_view() == edit_spec(e@, v.deep_view()),
{
    match e {
        CellEdit::FillBlank(fill) => {
            if cell_blank_exec(v) {
                Some(fill.clone())
            } else {
                crate::model::copy_cell(v)
            }
        },
        CellEdit::BlankToMissing => match v {
            Some(s) => if is_blank(s.as_str()) {
                None
            } else {
                Some(s.clone())
            },
            None => None,
        },
        CellEdit::ReplaceExact(from, to) => match v {
            Some(s) => {
                let a = trim(s.as_str());
                let b = trim(from.as_str());
                if text_eq(a.as_str(), b.as_str()) {
                    if is_blank(to.as_str()) {
                        None
                    } else {
                        Some(to.clone())
                    }
                } else {
                    Some(s.clone())
                }
            },
            None => None,
        },
        CellEdit::IntegerToFloat => match v {
            Some(s) => {
                let t = trim(s.as_str());
                match parse_i64(t.as_str()) {
                    Some(n) => {
                        let digits = i64_to_text(n);
                        proof {
                            reveal_strlit(".0");
                        }
                        Some(concat(digits.as_str(), ".0"))
                    },
                    None => Some(s.clone()),
                }
            },
            None => None,
        },
        CellEdit::ToBoolean => match v {
            Some(s) => match parse_bool_text(s.as_str()) {
                Some(b) => Some(bool_to_text(b)),
                None => Some(s.clone()),
            },
            None => None,
        },
        CellEdit::Upper => match v {
            Some(s) => Some(upper_case(s.as_str())),
            None => None,
        },
        CellEdit::Lower => match v {
            Some(s) => Some(lower_case(s.as_str())),
            None => None,
        },
        CellEdit::ReplaceText(from, to) => match v {
            Some(s) => Some(replace_all(s.as_str(), from.as_str(), to.as_str())),
            None => None,
        },
        CellEdit::SqueezeWhitespace => match v {
            Some(s) => non_empty(squeeze_whitespace(s.as_str(), ' ')),
            None => None,
        },
        CellEdit::TextBefore(d) => match v {
            Some(s) => non_empty(extract(s.as_str(), d.as_str(), true)),
            None => None,
        },
        CellEdit::TextAfter(d) => match v {
            Some(s) => non_empty(extract(s.as_str(), d.as_str(), false)),
            None => None,
        },
        CellEdit::DigitsOnly => match v {
            Some(s) => non_empty(keep_digits(s.as_str())),
            None => None,
        },
        CellEdit::Affix(prefix, suffix) => match v {
            Some(s) => {
                let head = concat(prefix.as_str(), s.as_str());
                Some(concat(head.as_str(), suffix.as_str()))
            },
            None => None,
        },
        CellEdit::Truncate(n) => match v {
            Some(s) => Some(take_chars(s.as_str(), *n)),
            None => None,
        },
        CellEdit::NormalizeDateTime => match v {
            Some(s) => {
                let t = trim(s.as_str());
                reformat(s, parse_datetime_or_timestamp(t.as_str()))
            },
            None => None,
        },
        CellEdit::TimestampToDateTime => match v {
            Some(s) => {
                let t = trim(s.as_str());
                reformat(s, parse_timestamp_value(t.as_str()))
            },
            None => None,
        },
    }
}

/// Extracting around a delimiter splits the cell at the delimiter's first
/// occurrence: the text before it (trimmed) is what precedes that
/// occurrence, the text after it (trimmed) is what follows it, and the two
/// with the delimiter between them make up the cell. A cell without the
/// delimiter is kept whole, trimmed, either way.
pub proof fn lemma_extract_splits_at_first(s: Seq<char>, d: Seq<char>, k: int)
    ensures
        0 <= k && k + d.len() <= s.len() && s.subrange(k, k + d.len()) == d && (forall|j: int|
            0 <= j < k ==> #[trigger] s.subrange(j, j + d.len()) != d) ==> {
            &&& extract_part(s, d, true) == trim_spec(s.take(k))
            &&& extract_part(s, d, false) == trim_spec(s.skip(k + d.len()))
            &&& s.take(k) + d + s.skip(k + d.len()) == s
        },
        (forall|j: int| 0 <= j && j + d.len() <= s.len() ==> #[trigger] s.subrange(j, j + d.len()) != d)
            ==> extract_part(s, d, true) == trim_spec(s) && extract_part(s, d, false) == trim_spec(s),
{
    crate::text::lemma_find_from(s, d, 0);
    if 0 <= k && k + d.len() <= s.len() && s.subrange(k, k + d.len()) == d && (forall|j: int|
        0 <= j < k ==> #[trigger] s.subrange(j, j + d.len()) != d) {
        assert(crate::text::occurs_at(s, d, k));
        match find_text(s, d) {
            Some(i) => {
                if i < k {
                    assert(s.subrange(i, i + d.len()) != d);
                } else if i > k {
                    assert(!crate::text::occurs_at(s, d, k));
                }
            },
            None => {
                assert(!crate::text::occurs_at(s, d, k));
            },
        }
        assert(s.take(k) + d + s.skip(k + d.len()) =~= s);
    }
    if forall|j: int| 0 <= j && j + d.len() <= s.len() ==> #[trigger] s.subrange(j, j + d.len()) != d {
        if let Some(i) = find_text(s, d) {
            assert(crate::text::occurs_at(s, d, i));
            assert(s.subrange(i, i + d.len()) == d);
        }
    }
}

} // verus!
