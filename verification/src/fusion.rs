//! Naming and key resolution for multi-source fusion: normalised field names,
//! unique output names, the object keys and time column of the primary
//! source and their counterparts in secondary sources, source aliases and
//! role labels.

use vstd::prelude::*;
use crate::error::TableError;
use crate::options::FusionStrategy;
use crate::model::{has_name, ColumnView, DataTable, LogicalType};
use crate::rows::positions_where;
use crate::number::{decimal_spec, digit_value, digits_value, int_text_spec, is_digit};
use crate::text::{
    ascii_lower, concat, contains, contains_text, is_blank, join_spec, join_texts, push_char,
    text_eq, to_ascii_lowercase, to_chars, trim, trim_spec,
};

verus! {

/// What `char::is_alphanumeric` says of a character.
pub uninterp spec fn alphanumeric(c: char) -> bool;

/// The characters `char::to_lowercase` yields for a character.
pub uninterp spec fn lower_chars(c: char) -> Seq<char>;

/// Calls `char::is_alphanumeric` (Unicode alphabetic or numeric). Its result
/// is named; the one fact stated is that ASCII digits are numeric.
#[verifier::external_body]
fn is_alphanumeric_char(c: char) -> (r: bool)
    ensures
        r == alphanumeric(c),
        is_digit(c) ==> r,
{
    c.is_alphanumeric()
}

/// Calls `char::to_lowercase` and collects what it yields. Its result (the
/// Unicode lowercase mapping) is named; the one fact stated is that an ASCII
/// digit, which has no lowercase mapping, yields itself.
#[verifier::external_body]
fn lowercase_char(c: char) -> (r: String)
    ensures
        r@ == lower_chars(c),
        is_digit(c) ==> r@ == seq![c],
{
    c.to_lowercase().collect()
}

/// A name with everything but letters and digits removed, in lower case.
pub open spec fn normalized_name(s: Seq<char>) -> Seq<char>
    decreases s.len(),
{
    if s.len() == 0 {
        Seq::empty()
    } else {
        normalized_name(s.drop_last()) + if alphanumeric(s.last()) {
            lower_chars(s.last())
        } else {
            Seq::<char>::empty()
        }
    }
}

/// Normalises a name for matching (see `normalized_name`).
pub fn normalize_name(value: &str) -> (r: String)
    ensures
        r@ == normalized_name(value@),
{
    let v = to_chars(value);
    let mut out = String::new();
    let mut i: usize = 0;
    assert(v@.take(0) =~= Seq::<char>::empty());
    while i < v.len()
        invariant
            v@ == value@,
            0 <= i <= v@.len(),
            out@ == normalized_name(v@.take(i as int)),
        decreases v.len() - i,
    {
        let c = v[i];
        assert(v@.take(i + 1).drop_last() =~= v@.take(i as int));
        if is_alphanumeric_char(c) {
            let low = lowercase_char(c);
            out = concat(out.as_str(), low.as_str());
        } else {
            assert(out@ =~= out@ + Seq::<char>::empty());
        }
        i += 1;
    }
    assert(v@.take(v@.len() as int) =~= v@);
    out
}

/// Normalising a concatenation normalises each part.
pub proof fn lemma_normalized_concat(a: Seq<char>, b: Seq<char>)
    ensures
        normalized_name(a + b) == normalized_name(a) + normalized_name(b),
    decreases b.len(),
{
    if b.len() == 0 {
        assert(a + b =~= a);
        assert(normalized_name(a) + normalized_name(b) =~= normalized_name(a));
    } else {
        assert((a + b).drop_last() =~= a + b.drop_last());
        assert((a + b).last() == b.last());
        lemma_normalized_concat(a, b.drop_last());
        let tail = if alphanumeric(b.last()) {
            lower_chars(b.last())
        } else {
            Seq::<char>::empty()
        };
        assert(normalized_name(a) + normalized_name(b.drop_last()) + tail =~= normalized_name(a)
            + (normalized_name(b.drop_last()) + tail));
    }
}

/// ASCII digits are alphanumeric and lower-case to themselves.
pub open spec fn digits_plain() -> bool {
    forall|c: char| is_digit(c) ==> alphanumeric(c) && lower_chars(c) == seq![c]
}

/// Asks both character functions about each ASCII digit, which makes
/// `digits_plain` known.
fn check_digits()
    ensures
        digits_plain(),
{
    let mut d: u8 = 0;
    while d < 10
        invariant
            d <= 10,
            forall|c: char| is_digit(c) && (c as int) < 48 + d ==> alphanumeric(c) && lower_chars(c) == seq![c],
        decreases 10 - d,
    {
        let c = (48 + d) as char;
        assert(c as int == 48 + d);
        assert(is_digit(c));
        let a = is_alphanumeric_char(c);
        let l = lowercase_char(c);
        assert forall|x: char| is_digit(x) && (x as int) < 48 + d + 1 implies alphanumeric(x)
            && lower_chars(x) == seq![x] by {
            if x as int == 48 + d {
                assert(x == c);
            }
        }
        d += 1;
    }
}

/// Digits normalise to themselves.
pub proof fn lemma_normalized_digits(d: Seq<char>)
    requires
        digits_plain(),
        forall|i: int| 0 <= i < d.len() ==> is_digit(#[trigger] d[i]),
    ensures
        normalized_name(d) == d,
    decreases d.len(),
{
    if d.len() > 0 {
        lemma_normalized_digits(d.drop_last());
        assert(is_digit(d[d.len() - 1]));
        assert(d.drop_last() + seq![d.last()] =~= d);
    }
}

} // verus!

verus! {

/// The name an output field starts from: the trimmed base, or "fusion_field"
/// when the base is blank.
pub open spec fn output_candidate(base: Seq<char>) -> Seq<char> {
    let t = trim_spec(base);
    if t.len() == 0 {
        "fusion_field"@
    } else {
        t
    }
}

/// The candidate with a numeric suffix.
pub open spec fn suffixed(candidate: Seq<char>, k: nat) -> Seq<char> {
    candidate + "_"@ + decimal_spec(k)
}

/// Whether a name is already taken: its normalised form is among those seen.
pub open spec fn taken(seen: Seq<Seq<char>>, name: Seq<char>) -> bool {
    seen.contains(normalized_name(name))
}

fn holds_text(seen: &Vec<String>, n: &str) -> (r: bool)
    ensures
        r == seen.deep_view().contains(n@),
{
    let mut i: usize = 0;
    while i < seen.len()
        invariant
            0 <= i <= seen@.len(),
            forall|j: int| 0 <= j < i ==> seen.deep_view()[j] != n@,
        decreases seen.len() - i,
    {
        if text_eq(seen[i].as_str(), n) {
            assert(seen.deep_view()[i as int] == n@);
            return true;
        }
        i += 1;
    }
    false
}

proof fn lemma_suffixed_normalized(candidate: Seq<char>, k: nat)
    requires
        digits_plain(),
    ensures
        normalized_name(suffixed(candidate, k)) == normalized_name(candidate + "_"@) + decimal_spec(k),
{
    crate::number::lemma_decimal_roundtrip(k);
    lemma_normalized_concat(candidate + "_"@, decimal_spec(k));
    lemma_normalized_digits(decimal_spec(k));
}

/// The normalised suffixed names of `2..count + 2` are all different.
proof fn lemma_suffixed_distinct(candidate: Seq<char>, count: nat)
    requires
        digits_plain(),
    ensures
        Seq::new(count, |i: int| normalized_name(suffixed(candidate, (i + 2) as nat))).no_duplicates(),
{
    let g = Seq::new(count, |i: int| normalized_name(suffixed(candidate, (i + 2) as nat)));
    assert forall|i: int, j: int| 0 <= i < g.len() && 0 <= j < g.len() && i != j implies g[i] != g[j] by {
        let p = normalized_name(candidate + "_"@);
        lemma_suffixed_normalized(candidate, (i + 2) as nat);
        lemma_suffixed_normalized(candidate, (j + 2) as nat);
        if g[i] == g[j] {
            let a = decimal_spec((i + 2) as nat);
            let b = decimal_spec((j + 2) as nat);
            assert((p + a).skip(p.len() as int) =~= a);
            assert((p + b).skip(p.len() as int) =~= b);
            crate::number::lemma_decimal_injective((i + 2) as nat, (j + 2) as nat);
        }
    }
}

/// The first suffix from `k` up whose suffixed name is not taken (looking no
/// further than `seen.len() + 2`, by which one always is free).
pub open spec fn first_free_suffix(seen: Seq<Seq<char>>, candidate: Seq<char>, k: nat) -> nat
    decreases seen.len() + 2 - k,
{
    if k >= seen.len() + 2 || !taken(seen, suffixed(candidate, k)) {
        k
    } else {
        first_free_suffix(seen, candidate, k + 1)
    }
}

/// The name `unique_output_name` gives: the candidate when it is free, else
/// the candidate with the first free suffix from 2.
pub open spec fn unique_name_spec(base: Seq<char>, seen: Seq<Seq<char>>) -> Seq<char> {
    let candidate = output_candidate(base);
    if !taken(seen, candidate) {
        candidate
    } else {
        suffixed(candidate, first_free_suffix(seen, candidate, 2))
    }
}

/// A name for an output field that no earlier field has taken: the candidate
/// itself when its normalised form is new, else the candidate with the first
/// suffix `_2`, `_3`, ... whose normalised form is new. The normalised form of
/// the name returned is recorded as seen.
pub fn unique_output_name(base: &str, seen_names: &mut Vec<String>) -> (r: String)
    requires
        old(seen_names)@.len() + 3 <= usize::MAX,
    ensures
        final(seen_names).deep_view() == old(seen_names).deep_view().push(normalized_name(r@)),
        r@ == unique_name_spec(base@, old(seen_names).deep_view()),
        !taken(old(seen_names).deep_view(), r@),
        !taken(old(seen_names).deep_view(), output_candidate(base@)) ==> r@ == output_candidate(
            base@,
        ),
        taken(old(seen_names).deep_view(), output_candidate(base@)) ==> exists|k: nat|
            k >= 2 && r@ == suffixed(output_candidate(base@), k) && forall|j: nat|
                2 <= j < k ==> taken(old(seen_names).deep_view(), #[trigger] suffixed(
                    output_candidate(base@),
                    j,
                )),
{
    let t = trim(base);
    let candidate = if t.as_str().is_empty() {
        "fusion_field".to_owned()
    } else {
        t
    };
    let normalized = normalize_name(candidate.as_str());
    if !holds_text(seen_names, normalized.as_str()) {
        seen_names.push(normalized);
        return candidate;
    }
    check_digits();
    let ghost seen = seen_names.deep_view();
    let ghost cand = candidate@;
    let with_sep = concat(candidate.as_str(), "_");
    let mut suffix: usize = 2;
    loop
        invariant
            seen == seen_names.deep_view(),
            seen == old(seen_names).deep_view(),
            seen.len() + 3 <= usize::MAX,
            cand == output_candidate(base@),
            taken(seen, cand),
            with_sep@ == cand + "_"@,
            digits_plain(),
            2 <= suffix <= seen.len() + 2,
            forall|j: nat| 2 <= j < suffix ==> taken(seen, #[trigger] suffixed(cand, j)),
            first_free_suffix(seen, cand, 2) == first_free_suffix(seen, cand, suffix as nat),
        decreases seen.len() + 2 - suffix,
    {
        let digits = crate::number::usize_to_text(suffix);
        let name = concat(with_sep.as_str(), digits.as_str());
        assert(name@ == suffixed(cand, suffix as nat));
        let normalized = normalize_name(name.as_str());
        if !holds_text(seen_names, normalized.as_str()) {
            seen_names.push(normalized);
            return name;
        }
        proof {
            let count = (suffix - 1) as nat;
            let g = Seq::new(count, |i: int| normalized_name(suffixed(cand, (i + 2) as nat)));
            lemma_suffixed_distinct(cand, count);
            g.unique_seq_to_set();
            assert forall|x: Seq<char>| g.to_set().contains(x) implies seen.to_set().contains(x) by {
                let i = choose|i: int| 0 <= i < g.len() && g[i] == x;
                assert(taken(seen, suffixed(cand, (i + 2) as nat)));
            }
            vstd::set_lib::lemma_len_subset(g.to_set(), seen.to_set());
            seen.lemma_cardinality_of_set();
        }
        suffix += 1;
    }
}

} // verus!

verus! {

/// Position of the first column whose normalised name is `n`.
pub open spec fn first_normalized_match(t: Seq<ColumnView>, n: Seq<char>) -> Option<int>
    decreases t.len(),
{
    if t.len() == 0 {
        None
    } else {
        match first_normalized_match(t.drop_last(), n) {
            Some(k) => Some(k),
            None => if normalized_name(t.last().name) == n {
                Some(t.len() - 1)
            } else {
                None
            },
        }
    }
}

proof fn lemma_first_normalized_prefix(t: Seq<ColumnView>, n: Seq<char>, i: int)
    requires
        0 <= i <= t.len(),
        first_normalized_match(t.take(i), n) is Some,
    ensures
        first_normalized_match(t, n) == first_normalized_match(t.take(i), n),
    decreases t.len() - i,
{
    if i < t.len() {
        assert(t.take(i + 1).drop_last() =~= t.take(i));
        lemma_first_normalized_prefix(t, n, i + 1);
    } else {
        assert(t.take(i) =~= t);
    }
}

proof fn lemma_first_normalized_bound(t: Seq<ColumnView>, n: Seq<char>)
    ensures
        first_normalized_match(t, n) matches Some(k) ==> 0 <= k < t.len() && normalized_name(
            t[k].name,
        ) == n,
    decreases t.len(),
{
    if t.len() > 0 {
        lemma_first_normalized_bound(t.drop_last(), n);
    }
}

/// The column of a secondary source that stands for a primary column: the
/// first whose normalised name equals the primary name's.
pub fn map_secondary_column(table: &DataTable, primary_name: &str) -> (r: Result<String, TableError>)
    ensures
        match first_normalized_match(table@, normalized_name(primary_name@)) {
            Some(k) => r matches Ok(name) && name@ == table@[k].name,
            None => r matches Err(TableError::NoMatchingColumn(n)) && n@ == primary_name@,
        },
{
    let target = normalize_name(primary_name);
    let ghost n = normalized_name(primary_name@);
    let mut i: usize = 0;
    assert(table@.take(0) =~= Seq::<ColumnView>::empty());
    while i < table.columns.len()
        invariant
            0 <= i <= table@.len(),
            target@ == n,
            n == normalized_name(primary_name@),
            first_normalized_match(table@.take(i as int), n) is None,
        decreases table.columns.len() - i,
    {
        assert(table@.take(i + 1).drop_last() =~= table@.take(i as int));
        assert(table@.take(i + 1).last() == table@[i as int]);
        let name = normalize_name(table.columns[i].name.as_str());
        if text_eq(name.as_str(), target.as_str()) {
            assert(table@[i as int].name == table.columns@[i as int].name@);
            assert(first_normalized_match(table@.take(i + 1), n) == Some(i as int));
            proof {
                lemma_first_normalized_prefix(table@, n, i + 1);
                lemma_first_normalized_bound(table@, n);
            }
            return Ok(table.columns[i].name.clone());
        }
        i += 1;
    }
    assert(table@.take(table@.len() as int) =~= table@);
    Err(TableError::NoMatchingColumn(primary_name.to_owned()))
}

/// The secondary column that stands for the primary time column.
pub fn map_secondary_time_column(table: &DataTable, primary_time: &str) -> (r: Result<String, TableError>)
    ensures
        match first_normalized_match(table@, normalized_name(primary_time@)) {
            Some(k) => r matches Ok(name) && name@ == table@[k].name,
            None => r matches Err(TableError::NoMatchingColumn(n)) && n@ == primary_time@,
        },
{
    map_secondary_column(table, primary_time)
}

/// Position of the first primary key with no counterpart in a secondary source.
pub open spec fn first_unmapped(t: Seq<ColumnView>, keys: Seq<Seq<char>>) -> Option<int>
    decreases keys.len(),
{
    if keys.len() == 0 {
        None
    } else {
        match first_unmapped(t, keys.drop_last()) {
            Some(k) => Some(k),
            None => if first_normalized_match(t, normalized_name(keys.last())) is None {
                Some(keys.len() - 1)
            } else {
                None
            },
        }
    }
}

/// The secondary name for each key, where every key has one.
pub open spec fn mapped_keys(t: Seq<ColumnView>, keys: Seq<Seq<char>>) -> Seq<Seq<char>> {
    keys.map_values(|k: Seq<char>| t[first_normalized_match(t, normalized_name(k))->0].name)
}

proof fn lemma_first_unmapped_prefix(t: Seq<ColumnView>, keys: Seq<Seq<char>>, i: int)
    requires
        0 <= i <= keys.len(),
        first_unmapped(t, keys.take(i)) is Some,
    ensures
        first_unmapped(t, keys) == first_unmapped(t, keys.take(i)),
    decreases keys.len() - i,
{
    if i < keys.len() {
        assert(keys.take(i + 1).drop_last() =~= keys.take(i));
        lemma_first_unmapped_prefix(t, keys, i + 1);
    } else {
        assert(keys.take(i) =~= keys);
    }
}

/// The secondary columns that stand for the primary object keys, in order; the
/// first key without a counterpart is reported.
pub fn map_secondary_keys(table: &DataTable, primary_keys: &Vec<String>) -> (r: Result<Vec<String>, TableError>)
    ensures
        match first_unmapped(table@, primary_keys.deep_view()) {
            None => r matches Ok(names) && names.deep_view() == mapped_keys(table@, primary_keys.deep_view()),
            Some(k) => r matches Err(TableError::NoMatchingColumn(n)) && n@ == primary_keys.deep_view()[k],
        },
{
    let ghost keys = primary_keys.deep_view();
    let mut out: Vec<String> = Vec::new();
    let mut i: usize = 0;
    while i < primary_keys.len()
        invariant
            0 <= i <= keys.len(),
            keys == primary_keys.deep_view(),
            first_unmapped(table@, keys.take(i as int)) is None,
            out.deep_view() == mapped_keys(table@, keys.take(i as int)),
        decreases primary_keys.len() - i,
    {
        assert(keys.take(i + 1).drop_last() =~= keys.take(i as int));
        assert(keys.take(i + 1).last() == keys[i as int]);
        match map_secondary_column(table, primary_keys[i].as_str()) {
            Ok(name) => {
                let ghost before = out.deep_view();
                out.push(name);
                assert(out.deep_view() =~= before.push(name@));
                assert(mapped_keys(table@, keys.take(i + 1)) =~= mapped_keys(table@, keys.take(i as int)).push(
                    name@,
                ));
            },
            Err(e) => {
                proof {
                    lemma_first_unmapped_prefix(table@, keys, i + 1);
                }
                return Err(e);
            },
        }
        i += 1;
    }
    assert(keys.take(keys.len() as int) =~= keys);
    Ok(out)
}

/// The trimmed requested keys that are not blank.
pub open spec fn requested_keys(requested: Seq<Seq<char>>) -> Seq<Seq<char>>
    decreases requested.len(),
{
    if requested.len() == 0 {
        Seq::empty()
    } else {
        let k = requested_keys(requested.drop_last());
        let t = trim_spec(requested.last());
        if t.len() > 0 {
            k.push(t)
        } else {
            k
        }
    }
}

/// The first of the keys that names no column of the table.
pub open spec fn first_absent(t: Seq<ColumnView>, keys: Seq<Seq<char>>) -> Option<int>
    decreases keys.len(),
{
    if keys.len() == 0 {
        None
    } else {
        match first_absent(t, keys.drop_last()) {
            Some(k) => Some(k),
            None => if has_name(t, keys.last()) {
                None
            } else {
                Some(keys.len() - 1)
            },
        }
    }
}

proof fn lemma_first_absent_prefix(t: Seq<ColumnView>, keys: Seq<Seq<char>>, i: int)
    requires
        0 <= i <= keys.len(),
        first_absent(t, keys.take(i)) is Some,
    ensures
        first_absent(t, keys) == first_absent(t, keys.take(i)),
    decreases keys.len() - i,
{
    if i < keys.len() {
        assert(keys.take(i + 1).drop_last() =~= keys.take(i));
        lemma_first_absent_prefix(t, keys, i + 1);
    } else {
        assert(keys.take(i) =~= keys);
    }
}

/// The object keys a fusion run uses: the trimmed requested names that are
/// not blank. At least one is needed, and each must name a column of the
/// primary source.
pub fn resolve_required_keys(table: &DataTable, requested: &Vec<String>) -> (r: Result<Vec<String>, TableError>)
    ensures
        ({
            let keys = requested_keys(requested.deep_view());
            if keys.len() == 0 {
                r == Err::<Vec<String>, TableError>(TableError::ObjectKeysRequired)
            } else {
                match first_absent(table@, keys) {
                    Some(k) => r matches Err(TableError::MissingObjectKey(n)) && n@ == keys[k],
                    None => r matches Ok(v) && v.deep_view() == keys,
                }
            }
        }),
{
    let ghost req = requested.deep_view();
    let mut keys: Vec<String> = Vec::new();
    let mut i: usize = 0;
    while i < requested.len()
        invariant
            0 <= i <= req.len(),
            req == requested.deep_view(),
            keys.deep_view() == requested_keys(req.take(i as int)),
        decreases requested.len() - i,
    {
        assert(req.take(i + 1).drop_last() =~= req.take(i as int));
        assert(req.take(i + 1).last() == req[i as int]);
        let t = trim(requested[i].as_str());
        if !t.as_str().is_empty() {
            let ghost before = keys.deep_view();
            keys.push(t);
            assert(keys.deep_view() =~= before.push(trim_spec(req[i as int])));
        }
        i += 1;
    }
    assert(req.take(req.len() as int) =~= req);
    if keys.len() == 0 {
        return Err(TableError::ObjectKeysRequired);
    }
    let ghost ks = keys.deep_view();
    let mut j: usize = 0;
    while j < keys.len()
        invariant
            0 <= j <= ks.len(),
            ks == keys.deep_view(),
            first_absent(table@, ks.take(j as int)) is None,
            ks == requested_keys(req),
            req == requested.deep_view(),
        decreases keys.len() - j,
    {
        assert(ks.take(j + 1).drop_last() =~= ks.take(j as int));
        assert(ks.take(j + 1).last() == ks[j as int]);
        if !crate::model::contains_column(table, keys[j].as_str()) {
            assert(first_absent(table@, ks.take(j + 1)) == Some(j as int));
            proof {
                lemma_first_absent_prefix(table@, ks, j + 1);
            }
            return Err(TableError::MissingObjectKey(keys[j].clone()));
        }
        j += 1;
    }
    assert(ks.take(ks.len() as int) =~= ks);
    Ok(keys)
}

/// The time column a fusion run uses: the trimmed requested name, which must
/// not be blank and must name a column of the primary source.
pub fn resolve_required_time(table: &DataTable, requested: &str) -> (r: Result<String, TableError>)
    ensures
        trim_spec(requested@).len() == 0 ==> r == Err::<String, TableError>(TableError::TimeColumnRequired),
        trim_spec(requested@).len() > 0 && !has_name(table@, trim_spec(requested@)) ==> (r matches Err(
            TableError::MissingTimeColumn(n),
        ) && n@ == trim_spec(requested@)),
        trim_spec(requested@).len() > 0 && has_name(table@, trim_spec(requested@)) ==> (r matches Ok(n)
            && n@ == trim_spec(requested@)),
{
    let column = trim(requested);
    if column.as_str().is_empty() {
        return Err(TableError::TimeColumnRequired);
    }
    if !crate::model::contains_column(table, column.as_str()) {
        return Err(TableError::MissingTimeColumn(column));
    }
    Ok(column)
}

} // verus!

verus! {

/// Whether a character is an ASCII letter or digit.
pub open spec fn ascii_alnum(c: char) -> bool {
    ('0' <= c && c <= '9') || ('a' <= c && c <= 'z') || ('A' <= c && c <= 'Z')
}

/// A name with ASCII letters and digits kept (lower-cased) and every other
/// character turned into `_`.
pub open spec fn slug_chars(s: Seq<char>) -> Seq<char> {
    s.map_values(|c: char| if ascii_alnum(c) { crate::text::ascii_lower_char(c) } else { '_' })
}

/// The text without its leading `_` characters.
pub open spec fn strip_leading_underscores(s: Seq<char>) -> Seq<char>
    decreases s.len(),
{
    if s.len() > 0 && s[0] == '_' {
        strip_leading_underscores(s.drop_first())
    } else {
        s
    }
}

/// The text without its trailing `_` characters.
pub open spec fn strip_trailing_underscores(s: Seq<char>) -> Seq<char>
    decreases s.len(),
{
    if s.len() > 0 && s.last() == '_' {
        strip_trailing_underscores(s.drop_last())
    } else {
        s
    }
}

/// The short alias of a source: `s<id>`, followed by `_` and the slug of its
/// name when that slug, stripped of `_` at both ends, is not empty.
pub open spec fn alias_spec(id: i32, name: Seq<char>) -> Seq<char> {
    let slug = strip_trailing_underscores(strip_leading_underscores(slug_chars(name)));
    if slug.len() == 0 {
        "s"@ + int_text_spec(id as int)
    } else {
        "s"@ + int_text_spec(id as int) + "_"@ + slug
    }
}

proof fn lemma_strip_leading(s: Seq<char>, i: int)
    requires
        0 <= i <= s.len(),
        forall|j: int| 0 <= j < i ==> s[j] == '_',
        i == s.len() || s[i] != '_',
    ensures
        strip_leading_underscores(s) == s.skip(i),
    decreases i,
{
    if i == 0 {
        assert(s.skip(0) =~= s);
    } else {
        assert(s.drop_first().skip(i - 1) =~= s.skip(i));
        lemma_strip_leading(s.drop_first(), i - 1);
    }
}

proof fn lemma_strip_trailing(s: Seq<char>, e: int)
    requires
        0 <= e <= s.len(),
        forall|j: int| e <= j < s.len() ==> s[j] == '_',
        e == 0 || s[e - 1] != '_',
    ensures
        strip_trailing_underscores(s) == s.take(e),
    decreases s.len() - e,
{
    if e == s.len() {
        assert(s.take(e) =~= s);
    } else {
        assert(s.drop_last().take(e) =~= s.take(e));
        lemma_strip_trailing(s.drop_last(), e);
    }
}

/// The short alias of a source (see `alias_spec`).
pub fn dataset_alias(dataset_id: i32, dataset_name: &str) -> (r: String)
    ensures
        r@ == alias_spec(dataset_id, dataset_name@),
{
    let v = to_chars(dataset_name);
    let mut slug: Vec<char> = Vec::new();
    let mut i: usize = 0;
    while i < v.len()
        invariant
            v@ == dataset_name@,
            0 <= i <= v@.len(),
            slug@ == slug_chars(v@.take(i as int)),
        decreases v.len() - i,
    {
        let c = v[i];
        let m = if ('0' <= c && c <= '9') || ('a' <= c && c <= 'z') || ('A' <= c && c <= 'Z') {
            crate::text::ascii_lower_char_exec(c)
        } else {
            '_'
        };
        slug.push(m);
        assert(slug_chars(v@.take(i + 1)) =~= slug_chars(v@.take(i as int)).push(m));
        i += 1;
    }
    assert(v@.take(v@.len() as int) =~= v@);
    let ghost s = slug@;
    let mut start: usize = 0;
    while start < slug.len() && slug[start] == '_'
        invariant
            s == slug@,
            0 <= start <= s.len(),
            forall|j: int| 0 <= j < start ==> s[j] == '_',
        decreases slug.len() - start,
    {
        start += 1;
    }
    proof {
        lemma_strip_leading(s, start as int);
    }
    let ghost rest = s.skip(start as int);
    let mut end: usize = slug.len();
    while end > start && slug[end - 1] == '_'
        invariant
            s == slug@,
            rest == s.skip(start as int),
            start <= end <= s.len(),
            forall|j: int| end <= j < s.len() ==> s[j] == '_',
        decreases end,
    {
        end -= 1;
    }
    proof {
        assert forall|j: int| (end - start) <= j < rest.len() implies rest[j] == '_' by {
            assert(rest[j] == s[j + start]);
        }
        if end > start {
            assert(rest[end - start - 1] == s[end - 1]);
        }
        lemma_strip_trailing(rest, (end - start) as int);
        assert(rest.take((end - start) as int) =~= s.subrange(start as int, end as int));
    }
    let id_text = crate::number::i64_to_text(dataset_id as i64);
    let head = concat("s", id_text.as_str());
    if end == start {
        head
    } else {
        let body = crate::text::string_from_range(&slug, start, end);
        let with_sep = concat(head.as_str(), "_");
        concat(with_sep.as_str(), body.as_str())
    }
}

/// The role a source plays, guessed from words in its name.
pub open spec fn role_label_spec(name: Seq<char>) -> Seq<char> {
    let lower = ascii_lower(name);
    if contains_text(lower, "sensor"@) || contains_text(name, "传感"@) || contains_text(name, "采样"@) {
        "传感采样"@
    } else if contains_text(lower, "state"@) || contains_text(name, "状态"@) {
        "设备状态"@
    } else if contains_text(lower, "command"@) || contains_text(name, "指令"@) || contains_text(
        name,
        "控制"@,
    ) {
        "控制指令"@
    } else if contains_text(lower, "label"@) || contains_text(name, "标签"@) {
        "人工标签"@
    } else if contains_text(lower, "sim"@) || contains_text(name, "仿真"@) {
        "仿真结果"@
    } else if contains_text(name, "工况"@) || contains_text(name, "条件"@) {
        "试验工况"@
    } else {
        "工程数据"@
    }
}

/// Guesses the role a source plays from words in its name.
pub fn guess_role_label(dataset_name: &str) -> (r: &'static str)
    ensures
        r@ == role_label_spec(dataset_name@),
{
    let lower = to_ascii_lowercase(dataset_name);
    let l = lower.as_str();
    if contains(l, "sensor") || contains(dataset_name, "传感") || contains(dataset_name, "采样") {
        "传感采样"
    } else if contains(l, "state") || contains(dataset_name, "状态") {
        "设备状态"
    } else if contains(l, "command") || contains(dataset_name, "指令") || contains(dataset_name, "控制") {
        "控制指令"
    } else if contains(l, "label") || contains(dataset_name, "标签") {
        "人工标签"
    } else if contains(l, "sim") || contains(dataset_name, "仿真") {
        "仿真结果"
    } else if contains(dataset_name, "工况") || contains(dataset_name, "条件") {
        "试验工况"
    } else {
        "工程数据"
    }
}

/// Whether a column name reads as a time column.
pub open spec fn time_name_spec(value: Seq<char>) -> bool {
    let n = normalized_name(value);
    contains_text(n, "time"@) || contains_text(n, "timestamp"@) || contains_text(value, "时间"@)
}

/// Whether a column name reads as a time column (see `time_name_spec`).
pub fn looks_like_time_name(value: &str) -> (r: bool)
    ensures
        r == time_name_spec(value@),
{
    let n = normalize_name(value);
    contains(n.as_str(), "time") || contains(n.as_str(), "timestamp") || contains(value, "时间")
}

/// The values joined by " | ", or the default when there are none.
pub open spec fn joined_or(values: Seq<Seq<char>>, default_value: Seq<char>) -> Seq<char> {
    if values.len() == 0 {
        default_value
    } else {
        join_spec(values, " | "@)
    }
}

/// The values joined by " | ", or the default when there are none.
pub fn join_or_default(values: &Vec<String>, default_value: &str) -> (r: String)
    ensures
        r@ == joined_or(values.deep_view(), default_value@),
{
    if values.len() == 0 {
        default_value.to_owned()
    } else {
        join_texts(values, " | ")
    }
}

/// Whether an optional text holds something besides white space.
pub open spec fn filled(value: Option<Seq<char>>) -> bool {
    match value {
        Some(v) => trim_spec(v).len() > 0,
        None => false,
    }
}

/// Whether an optional text holds something besides white space.
pub fn is_non_empty(value: Option<&str>) -> (r: bool)
    ensures
        r == filled(
            match value {
                Some(v) => Some(v@),
                None => None,
            },
        ),
{
    match value {
        Some(v) => !is_blank(v),
        None => false,
    }
}

/// How many cells hold something besides white space.
pub open spec fn filled_count(cells: Seq<Option<Seq<char>>>) -> nat
    decreases cells.len(),
{
    if cells.len() == 0 {
        0
    } else {
        filled_count(cells.drop_last()) + if filled(cells.last()) {
            1nat
        } else {
            0nat
        }
    }
}

/// Counts the cells that hold something besides white space.
pub fn count_non_empty(cells: &Vec<Option<String>>) -> (r: usize)
    ensures
        r == filled_count(cells.deep_view()),
{
    let ghost cv = cells.deep_view();
    let mut n: usize = 0;
    let mut i: usize = 0;
    while i < cells.len()
        invariant
            0 <= i <= cv.len(),
            cv == cells.deep_view(),
            n == filled_count(cv.take(i as int)),
            n <= i,
        decreases cells.len() - i,
    {
        assert(cv.take(i + 1).drop_last() =~= cv.take(i as int));
        assert(cv.take(i + 1).last() == cv[i as int]);
        let f = match &cells[i] {
            Some(v) => !is_blank(v.as_str()),
            None => false,
        };
        if f {
            n += 1;
        }
        i += 1;
    }
    assert(cv.take(cv.len() as int) =~= cv);
    n
}

} // verus!

verus! {

/// The object key of a row: the cells at the key positions joined by "|",
/// a missing cell (or a position past the row) written as "NULL".
pub open spec fn object_key_spec(row: Seq<Option<Seq<char>>>, indexes: Seq<usize>) -> Seq<char> {
    join_spec(
        indexes.map_values(
            |i: usize|
                if (i as int) < row.len() && row[i as int] is Some {
                    row[i as int]->0
                } else {
                    "NULL"@
                },
        ),
        "|"@,
    )
}

/// The object key of a row (see `object_key_spec`).
pub fn object_key(row: &Vec<Option<String>>, indexes: &Vec<usize>) -> (r: String)
    ensures
        r@ == object_key_spec(row.deep_view(), indexes@),
{
    let ghost f = |i: usize|
        if (i as int) < row.deep_view().len() && row.deep_view()[i as int] is Some {
            row.deep_view()[i as int]->0
        } else {
            "NULL"@
        };
    let mut parts: Vec<String> = Vec::new();
    let mut k: usize = 0;
    while k < indexes.len()
        invariant
            0 <= k <= indexes@.len(),
            f == (|i: usize|
                if (i as int) < row.deep_view().len() && row.deep_view()[i as int] is Some {
                    row.deep_view()[i as int]->0
                } else {
                    "NULL"@
                }),
            parts.deep_view() == indexes@.take(k as int).map_values(f),
        decreases indexes.len() - k,
    {
        let ix = indexes[k];
        let ghost before = parts.deep_view();
        let cell = if ix < row.len() {
            match &row[ix] {
                Some(s) => s.clone(),
                None => "NULL".to_owned(),
            }
        } else {
            "NULL".to_owned()
        };
        parts.push(cell);
        assert(parts.deep_view() =~= before.push(f(ix)));
        assert(indexes@.take(k + 1).map_values(f) =~= indexes@.take(k as int).map_values(f).push(f(ix)));
        k += 1;
    }
    assert(indexes@.take(indexes@.len() as int) =~= indexes@);
    join_texts(&parts, "|")
}

} // verus!

verus! {

/// A field a secondary source contributes to the fused table.
#[derive(Clone, Debug)]
pub struct FieldBinding {
    /// The source column.
    pub source_index: usize,
    /// The name the field starts from (made unique later).
    pub output_name: String,
    pub logical_type: LogicalType,
    /// The primary column with the same normalised name, if any.
    pub overlaps_primary: Option<usize>,
}

/// Abstract value of a binding.
pub struct BindingView {
    pub source_index: int,
    pub output_name: Seq<char>,
    pub logical_type: LogicalType,
    pub overlaps_primary: Option<int>,
}

impl View for FieldBinding {
    type V = BindingView;

    open spec fn view(&self) -> BindingView {
        BindingView {
            source_index: self.source_index as int,
            output_name: self.output_name@,
            logical_type: self.logical_type,
            overlaps_primary: match self.overlaps_primary {
                Some(i) => Some(i as int),
                None => None,
            },
        }
    }
}

/// Position of the last column whose normalised name is `n`.
pub open spec fn last_normalized_match(t: Seq<ColumnView>, n: Seq<char>) -> Option<int>
    decreases t.len(),
{
    if t.len() == 0 {
        None
    } else if normalized_name(t.last().name) == n {
        Some(t.len() - 1)
    } else {
        last_normalized_match(t.drop_last(), n)
    }
}

/// Whether a secondary column is one of the object-key columns or the time
/// column (by normalised name).
pub open spec fn is_alignment_column(c: ColumnView, keys: Seq<Seq<char>>, time: Seq<char>) -> bool {
    keys.map_values(|k: Seq<char>| normalized_name(k)).contains(normalized_name(c.name)) || normalized_name(c.name)
        == normalized_name(time)
}

/// The fields a secondary source contributes: its columns other than the
/// object-key and time columns, in order, each with its name and type and
/// the last primary column of the same normalised name.
pub open spec fn bindings_spec(s: Seq<ColumnView>, keys: Seq<Seq<char>>, time: Seq<char>, p: Seq<ColumnView>) -> Seq<BindingView> {
    let pos = positions_where(s.len(), |c: int| !is_alignment_column(s[c], keys, time));
    Seq::new(
        pos.len(),
        |k: int|
            BindingView {
                source_index: pos[k] as int,
                output_name: s[pos[k] as int].name,
                logical_type: s[pos[k] as int].logical_type,
                overlaps_primary: last_normalized_match(p, normalized_name(s[pos[k] as int].name)),
            },
    )
}

fn last_normalized_exec(primary: &DataTable, n: &str) -> (r: Option<usize>)
    ensures
        match last_normalized_match(primary@, n@) {
            Some(k) => r matches Some(i) && i as int == k,
            None => r is None,
        },
{
    let mut i: usize = primary.columns.len();
    assert(primary@.take(i as int) =~= primary@);
    while i > 0
        invariant
            0 <= i <= primary@.len(),
            last_normalized_match(primary@, n@) == last_normalized_match(primary@.take(i as int), n@),
        decreases i,
    {
        let name = normalize_name(primary.columns[i - 1].name.as_str());
        assert(primary@[i - 1] == primary.columns@[i - 1]@);
        assert(primary@.take(i as int).last() == primary@[i - 1]);
        assert(primary@.take(i as int).drop_last() =~= primary@.take(i - 1));
        if text_eq(name.as_str(), n) {
            return Some(i - 1);
        }
        i -= 1;
    }
    None
}

/// The fields a secondary source contributes (see `bindings_spec`).
pub fn output_bindings(
    secondary: &DataTable,
    object_keys: &Vec<String>,
    time_column: &str,
    primary: &DataTable,
) -> (r: Vec<FieldBinding>)
    ensures
        r@.map_values(|b: FieldBinding| b@) == bindings_spec(secondary@, object_keys.deep_view(), time_column@, primary@),
{
    let ghost keys = object_keys.deep_view();
    let ghost keep = |c: int| !is_alignment_column(secondary@[c], keys, time_column@);
    let mut key_names: Vec<String> = Vec::new();
    let mut j: usize = 0;
    while j < object_keys.len()
        invariant
            keys == object_keys.deep_view(),
            0 <= j <= keys.len(),
            key_names.deep_view() == keys.take(j as int).map_values(|k: Seq<char>| normalized_name(k)),
        decreases object_keys.len() - j,
    {
        let ghost before = key_names.deep_view();
        key_names.push(normalize_name(object_keys[j].as_str()));
        assert(keys.take(j + 1).map_values(|k: Seq<char>| normalized_name(k)) =~= before.push(
            normalized_name(keys[j as int]),
        ));
        j += 1;
    }
    assert(keys.take(keys.len() as int) =~= keys);
    let time_name = normalize_name(time_column);
    let mut out: Vec<FieldBinding> = Vec::new();
    let ghost mut pos: Seq<usize> = Seq::empty();
    let mut c: usize = 0;
    while c < secondary.columns.len()
        invariant
            keys == object_keys.deep_view(),
            key_names.deep_view() == keys.map_values(|k: Seq<char>| normalized_name(k)),
            time_name@ == normalized_name(time_column@),
            keep == (|c: int| !is_alignment_column(secondary@[c], keys, time_column@)),
            0 <= c <= secondary@.len(),
            pos == positions_where(c as nat, keep),
            out@.len() == pos.len(),
            forall|k: int| 0 <= k < pos.len() ==> (#[trigger] out@[k])@ == (BindingView {
                source_index: pos[k] as int,
                output_name: secondary@[pos[k] as int].name,
                logical_type: secondary@[pos[k] as int].logical_type,
                overlaps_primary: last_normalized_match(primary@, normalized_name(secondary@[pos[k] as int].name)),
            }),
        decreases secondary.columns.len() - c,
    {
        let column = &secondary.columns[c];
        assert(secondary@[c as int] == column@);
        let name = normalize_name(column.name.as_str());
        let is_key = name_listed(&key_names, name.as_str());
        let is_time = text_eq(name.as_str(), time_name.as_str());
        if !is_key && !is_time {
            assert(keep(c as int));
            let overlap = last_normalized_exec(primary, name.as_str());
            let ghost before = out@;
            out.push(FieldBinding {
                source_index: c,
                output_name: column.name.clone(),
                logical_type: column.logical_type,
                overlaps_primary: overlap,
            });
            proof {
                pos = pos.push(c);
                assert forall|k: int| 0 <= k < pos.len() implies (#[trigger] out@[k])@ == (BindingView {
                    source_index: pos[k] as int,
                    output_name: secondary@[pos[k] as int].name,
                    logical_type: secondary@[pos[k] as int].logical_type,
                    overlaps_primary: last_normalized_match(primary@, normalized_name(secondary@[pos[k] as int].name)),
                }) by {
                    if k < pos.len() - 1 {
                        assert(out@[k] == before[k]);
                    }
                }
            }
        } else {
            assert(!keep(c as int));
        }
        c += 1;
    }
    assert(out@.map_values(|b: FieldBinding| b@) =~= bindings_spec(secondary@, keys, time_column@, primary@));
    out
}

fn name_listed(names: &Vec<String>, name: &str) -> (r: bool)
    ensures
        r == names.deep_view().contains(name@),
{
    let mut i: usize = 0;
    while i < names.len()
        invariant
            0 <= i <= names@.len(),
            forall|j: int| 0 <= j < i ==> names.deep_view()[j] != name@,
        decreases names.len() - i,
    {
        if text_eq(names[i].as_str(), name) {
            assert(names.deep_view()[i as int] == name@);
            return true;
        }
        i += 1;
    }
    false
}

/// What merging a secondary source's cell into the fused cell does: keep the
/// fused cell, take the candidate (with its weight), or combine the two
/// numbers (an average, plain or weighted by confidence).
#[derive(Clone, Copy, Debug, PartialEq, Eq, Structural)]
pub enum CellChoice {
    Keep,
    Take,
    Combine,
}

/// The choice a strategy makes for a fused cell `current` and a candidate: an
/// empty candidate changes nothing; "secondary first" always takes the
/// candidate; the other strategies fill an empty fused cell from it, and keep
/// a filled one, except the two numeric strategies, which combine.
pub open spec fn cell_choice_spec(
    current: Option<Seq<char>>,
    candidate: Option<Seq<char>>,
    strategy: FusionStrategy,
) -> CellChoice {
    if !filled(candidate) {
        CellChoice::Keep
    } else if strategy == FusionStrategy::SecondaryFirst || !filled(current) {
        CellChoice::Take
    } else if strategy == FusionStrategy::NumericAverage || strategy
        == FusionStrategy::ConfidenceWeighted {
        CellChoice::Combine
    } else {
        CellChoice::Keep
    }
}

/// Decides how a candidate cell is merged into the fused cell (see
/// `cell_choice_spec`).
pub fn cell_choice(current: &Option<String>, candidate: &Option<String>, strategy: FusionStrategy) -> (r:
    CellChoice)
    ensures
        r == cell_choice_spec(current.deep_view(), candidate.deep_view(), strategy),
{
    let has_candidate = match candidate {
        Some(v) => !is_blank(v.as_str()),
        None => false,
    };
    let has_current = match current {
        Some(v) => !is_blank(v.as_str()),
        None => false,
    };
    if !has_candidate {
        CellChoice::Keep
    } else if strategy == FusionStrategy::SecondaryFirst || !has_current {
        CellChoice::Take
    } else if strategy == FusionStrategy::NumericAverage || strategy == FusionStrategy::ConfidenceWeighted {
        CellChoice::Combine
    } else {
        CellChoice::Keep
    }
}

/// The names given to new output fields with the names `bases`, in order,
/// when the normalised names `seen` are taken already: each is the unique
/// output name (see `unique_name_spec`) among `seen` and the normalised names
/// given before it.
pub open spec fn fresh_names(seen: Seq<Seq<char>>, bases: Seq<Seq<char>>) -> Seq<Seq<char>>
    decreases bases.len(),
{
    if bases.len() == 0 {
        Seq::empty()
    } else {
        let prev = fresh_names(seen, bases.drop_last());
        prev.push(
            unique_name_spec(bases.last(), seen + prev.map_values(|n: Seq<char>| normalized_name(n))),
        )
    }
}

/// Names the secondary fields that a fusion adds after the primary source's
/// columns: each output name is made unique against the primary's names and
/// the names given before it (see `fresh_names`).
pub fn output_field_names(primary_names: &Vec<String>, bases: &Vec<String>) -> (r: Vec<String>)
    requires
        primary_names@.len() + bases@.len() + 3 <= usize::MAX,
    ensures
        r.deep_view() == fresh_names(
            primary_names.deep_view().map_values(|n: Seq<char>| normalized_name(n)),
            bases.deep_view(),
        ),
        forall|i: int|
            0 <= i < r@.len() ==> !primary_names.deep_view().map_values(
                |n: Seq<char>| normalized_name(n),
            ).contains(normalized_name(#[trigger] r.deep_view()[i])),
        forall|i: int, j: int|
            0 <= i < j < r@.len() ==> normalized_name(#[trigger] r.deep_view()[i]) != normalized_name(
                #[trigger] r.deep_view()[j],
            ),
{
    let ghost pn = primary_names.deep_view();
    let mut seen: Vec<String> = Vec::new();
    let mut i: usize = 0;
    while i < primary_names.len()
        invariant
            pn == primary_names.deep_view(),
            0 <= i <= pn.len(),
            seen.deep_view() == pn.take(i as int).map_values(|n: Seq<char>| normalized_name(n)),
            seen@.len() == i,
        decreases primary_names.len() - i,
    {
        let name = normalize_name(primary_names[i].as_str());
        let ghost before = seen.deep_view();
        seen.push(name);
        assert(seen.deep_view() =~= before.push(name@));
        assert(pn.take(i + 1) =~= pn.take(i as int).push(pn[i as int]));
        assert(seen.deep_view() =~= pn.take(i + 1).map_values(|n: Seq<char>| normalized_name(n)));
        i += 1;
    }
    assert(pn.take(pn.len() as int) =~= pn);
    let ghost seen0 = seen.deep_view();
    let ghost bs = bases.deep_view();
    let mut out: Vec<String> = Vec::new();
    let mut k: usize = 0;
    while k < bases.len()
        invariant
            bs == bases.deep_view(),
            pn.len() + bs.len() + 3 <= usize::MAX,
            seen0.len() == pn.len(),
            0 <= k <= bs.len(),
            out.deep_view() == fresh_names(seen0, bs.take(k as int)),
            out@.len() == k,
            seen@.len() == pn.len() + k,
            seen.deep_view() == seen0 + out.deep_view().map_values(|n: Seq<char>| normalized_name(n)),
            seen0 == pn.map_values(|n: Seq<char>| normalized_name(n)),
            forall|i: int| 0 <= i < k ==> !seen0.contains(normalized_name(#[trigger] out.deep_view()[i])),
            forall|i: int, j: int|
                0 <= i < j < k ==> normalized_name(#[trigger] out.deep_view()[i]) != normalized_name(
                    #[trigger] out.deep_view()[j],
                ),
        decreases bases.len() - k,
    {
        assert(bs.take(k + 1).drop_last() =~= bs.take(k as int));
        assert(bs.take(k + 1).last() == bs[k as int]);
        assert(bases[k as int]@ == bs[k as int]);
        let ghost prev = out.deep_view();
        let ghost seen_before = seen.deep_view();
        let name = unique_output_name(bases[k].as_str(), &mut seen);
        proof {
            let pm = prev.map_values(|n: Seq<char>| normalized_name(n));
            assert(!seen_before.contains(normalized_name(name@)));
            assert forall|j: int| 0 <= j < k implies normalized_name(#[trigger] prev[j]) != normalized_name(name@) by {
                assert(seen_before[seen0.len() + j] == pm[j]);
            }
            assert forall|x: Seq<char>| seen0.contains(x) implies seen_before.contains(x) by {
                let m = choose|m: int| 0 <= m < seen0.len() && seen0[m] == x;
                assert(seen_before[m] == x);
            }
        }
        out.push(name.clone());
        assert(out.deep_view() =~= prev.push(name@));
        assert(seen.deep_view() =~= seen0 + out.deep_view().map_values(|n: Seq<char>| normalized_name(n)));
        k += 1;
    }
    assert(bs.take(bs.len() as int) =~= bs);
    out
}

/// Whether a column feeds the feature table: a number column whose name does
/// not begin with `fusion_` (the columns that fusion itself adds).
pub open spec fn feature_column(c: ColumnView) -> bool {
    !(c.name.len() >= 7 && c.name.take(7) == "fusion_"@) && (c.logical_type == LogicalType::Integer
        || c.logical_type == LogicalType::Float)
}

/// The positions of the columns that feed the feature table: the first
/// `limit` feature columns, in table order.
pub open spec fn feature_positions(t: Seq<ColumnView>, limit: nat) -> Seq<usize> {
    let all = positions_where(t.len(), |i: int| feature_column(t[i]));
    if all.len() <= limit {
        all
    } else {
        all.take(limit as int)
    }
}

/// Picks the first `limit` feature columns (see `feature_column`).
pub fn feature_columns(table: &DataTable, limit: usize) -> (r: Vec<usize>)
    ensures
        r@ == feature_positions(table@, limit as nat),
{
    let ghost keep = |i: int| feature_column(table@[i]);
    let mut all: Vec<usize> = Vec::new();
    let mut i: usize = 0;
    while i < table.columns.len()
        invariant
            0 <= i <= table@.len(),
            keep == (|i: int| feature_column(table@[i])),
            all@ == positions_where(i as nat, keep),
            all@.len() <= i,
        decreases table.columns.len() - i,
    {
        let column = &table.columns[i];
        assert(column@ == table@[i as int]);
        let chars = to_chars(column.name.as_str());
        let mut prefixed = chars.len() >= 7;
        let pattern = to_chars("fusion_");
        proof {
            reveal_strlit("fusion_");
        }
        let mut k: usize = 0;
        while prefixed && k < 7
            invariant
                chars@ == column.name@,
                pattern@ == "fusion_"@,
                "fusion_"@.len() == 7,
                0 <= k <= 7,
                prefixed ==> chars@.len() >= 7,
                prefixed ==> forall|m: int| 0 <= m < k ==> chars@[m] == pattern@[m],
                !prefixed ==> !(chars@.len() >= 7 && chars@.take(7) == "fusion_"@),
            decreases 7 - k + if prefixed { 1int } else { 0int },
        {
            if chars[k] != pattern[k] {
                prefixed = false;
                assert(chars@.take(7)[k as int] != "fusion_"@[k as int]);
            } else {
                k += 1;
            }
        }
        if prefixed {
            assert(chars@.take(7) =~= "fusion_"@);
        }
        let numeric = column.logical_type == LogicalType::Integer || column.logical_type == LogicalType::Float;
        let ghost before = all@;
        if !prefixed && numeric {
            all.push(i);
        }
        assert(positions_where((i + 1) as nat, keep) == if keep(i as int) {
            before.push(i)
        } else {
            before
        });
        i += 1;
    }
    if all.len() <= limit {
        all
    } else {
        let mut out: Vec<usize> = Vec::new();
        let mut k: usize = 0;
        while k < limit
            invariant
                limit < all@.len(),
                0 <= k <= limit,
                out@ == all@.take(k as int),
            decreases limit - k,
        {
            assert(all@.take(k + 1) =~= all@.take(k as int).push(all@[k as int]));
            out.push(all[k]);
            k += 1;
        }
        out
    }
}

/// The six statistic headers of one feature column.
pub open spec fn feature_stat_names(name: Seq<char>) -> Seq<Seq<char>> {
    seq![
        name + "_mean"@,
        name + "_max"@,
        name + "_min"@,
        name + "_last"@,
        name + "_delta"@,
        name + "_missing_rate"@,
    ]
}

/// The statistic headers of the feature columns, column by column.
pub open spec fn feature_stats_headers(names: Seq<Seq<char>>) -> Seq<Seq<char>>
    decreases names.len(),
{
    if names.len() == 0 {
        Seq::empty()
    } else {
        feature_stats_headers(names.drop_last()) + feature_stat_names(names.last())
    }
}

/// The feature table's headers: the object keys, the row count, the first and
/// last time, then six statistics for each feature column.
pub open spec fn feature_headers_spec(keys: Seq<Seq<char>>, names: Seq<Seq<char>>) -> Seq<Seq<char>> {
    keys + seq!["row_count"@, "start_time"@, "end_time"@] + feature_stats_headers(names)
}

/// Lays out the feature table's headers (see `feature_headers_spec`).
pub fn feature_headers(keys: &Vec<String>, names: &Vec<String>) -> (r: Vec<String>)
    ensures
        r.deep_view() == feature_headers_spec(keys.deep_view(), names.deep_view()),
{
    let mut out: Vec<String> = Vec::new();
    let mut i: usize = 0;
    while i < keys.len()
        invariant
            0 <= i <= keys@.len(),
            out.deep_view() == keys.deep_view().take(i as int),
        decreases keys.len() - i,
    {
        let ghost before = out.deep_view();
        out.push(keys[i].clone());
        assert(out.deep_view() =~= before.push(keys.deep_view()[i as int]));
        assert(keys.deep_view().take(i + 1) =~= keys.deep_view().take(i as int).push(keys.deep_view()[i as int]));
        i += 1;
    }
    assert(keys.deep_view().take(keys@.len() as int) =~= keys.deep_view());
    let ghost base = out.deep_view();
    out.push("row_count".to_owned());
    out.push("start_time".to_owned());
    out.push("end_time".to_owned());
    proof {
        reveal_strlit("row_count");
        reveal_strlit("start_time");
        reveal_strlit("end_time");
    }
    assert(out.deep_view() =~= base + seq!["row_count"@, "start_time"@, "end_time"@]);
    let ghost head = out.deep_view();
    let ghost nv = names.deep_view();
    let mut k: usize = 0;
    while k < names.len()
        invariant
            nv == names.deep_view(),
            0 <= k <= nv.len(),
            out.deep_view() == head + feature_stats_headers(nv.take(k as int)),
        decreases names.len() - k,
    {
        let name = names[k].as_str();
        assert(name@ == nv[k as int]);
        let ghost before = out.deep_view();
        out.push(concat(name, "_mean"));
        out.push(concat(name, "_max"));
        out.push(concat(name, "_min"));
        out.push(concat(name, "_last"));
        out.push(concat(name, "_delta"));
        out.push(concat(name, "_missing_rate"));
        assert(out.deep_view() =~= before + feature_stat_names(name@));
        assert(nv.take(k + 1).drop_last() =~= nv.take(k as int));
        assert(nv.take(k + 1).last() == nv[k as int]);
        k += 1;
    }
    assert(nv.take(nv.len() as int) =~= nv);
    out
}

} // verus!
