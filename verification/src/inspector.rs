//! Column-name canonicalisation, mapping and join suggestions, and the choice of
//! key and time columns.

use vstd::prelude::*;
use crate::aggregate::{distinct_count, samples};
use crate::datetime::{looks_like_datetime, parsed_datetime};
use crate::model::{column_position, find_column, has_name, height_of, ColumnView, DataTable, LogicalType};
use crate::rows::{first_occurrences, positions_where};
use crate::schema::name_in;
use crate::text::{ascii_lower, concat, contains, contains_text, push_char, text_eq, to_ascii_lowercase, to_chars, trim, trim_spec};
use crate::inference::present;

verus! {

/// A suggested rename of a column to its canonical name.
#[derive(Clone, Debug)]
pub struct MappingSuggestion {
    pub source_name: String,
    pub target_name: String,
    pub confidence: String,
    pub status: String,
}

/// A suggested join of the current table with another dataset.
#[derive(Clone, Debug)]
pub struct JoinSuggestion {
    pub target_dataset: String,
    pub left_key: String,
    pub right_key: String,
    pub join_type: String,
    pub reason: String,
}

/// Spaces and hyphens written as underscores.
pub open spec fn underscored(s: Seq<char>) -> Seq<char> {
    s.map_values(|c: char| if c == ' ' || c == '-' { '_' } else { c })
}

/// The canonical field a name stands for (empty when none): the name trimmed,
/// ASCII-lower-cased and with spaces and hyphens as underscores, looked up among
/// the known fields and their aliases.
pub open spec fn canonical_spec(name: Seq<char>) -> Seq<char> {
    let n = underscored(ascii_lower(trim_spec(name)));
    if n == "timestamp"@ || n == "time"@ || n == "时间"@ || n == "日期"@ || n == "datetime"@ || n
        == "ts"@ {
        "timestamp"@
    } else if n == "device_id"@ || n == "device"@ || n == "dev_id"@ || n == "设备编号"@ || n
        == "设备id"@ || n == "id"@ {
        "device_id"@
    } else if n == "temperature"@ || n == "temp"@ || n == "温度"@ || n == "temp_c"@ || n
        == "temperature_c"@ {
        "temperature"@
    } else if n == "pressure"@ || n == "press"@ || n == "压力"@ {
        "pressure"@
    } else if n == "status"@ || n == "state"@ || n == "状态"@ || n == "result_status"@ {
        "status"@
    } else if n == "batch_id"@ || n == "batch"@ || n == "批次"@ || n == "batch_no"@ {
        "batch_id"@
    } else {
        Seq::empty()
    }
}

fn underscore_text(s: &str) -> (r: String)
    ensures
        r@ == underscored(s@),
{
    let v = to_chars(s);
    let mut out = String::new();
    let mut i: usize = 0;
    while i < v.len()
        invariant
            v@ == s@,
            0 <= i <= v@.len(),
            out@ == underscored(s@.take(i as int)),
        decreases v.len() - i,
    {
        let c = v[i];
        push_char(&mut out, if c == ' ' || c == '-' { '_' } else { c });
        assert(underscored(s@.take(i + 1)) =~= underscored(s@.take(i as int)).push(
            if c == ' ' || c == '-' { '_' } else { c },
        ));
        i += 1;
    }
    assert(s@.take(v@.len() as int) =~= s@);
    out
}

/// The canonical field a name stands for (see `canonical_spec`).
pub fn canonical_name(name: &str) -> (r: String)
    ensures
        r@ == canonical_spec(name@),
{
    let t = trim(name);
    let l = to_ascii_lowercase(t.as_str());
    let w = underscore_text(l.as_str());
    let n = w.as_str();
    if text_eq(n, "timestamp") || text_eq(n, "time") || text_eq(n, "时间") || text_eq(n, "日期")
        || text_eq(n, "datetime") || text_eq(n, "ts") {
        "timestamp".to_owned()
    } else if text_eq(n, "device_id") || text_eq(n, "device") || text_eq(n, "dev_id") || text_eq(
        n,
        "设备编号",
    ) || text_eq(n, "设备id") || text_eq(n, "id") {
        "device_id".to_owned()
    } else if text_eq(n, "temperature") || text_eq(n, "temp") || text_eq(n, "温度") || text_eq(
        n,
        "temp_c",
    ) || text_eq(n, "temperature_c") {
        "temperature".to_owned()
    } else if text_eq(n, "pressure") || text_eq(n, "press") || text_eq(n, "压力") {
        "pressure".to_owned()
    } else if text_eq(n, "status") || text_eq(n, "state") || text_eq(n, "状态") || text_eq(
        n,
        "result_status",
    ) {
        "status".to_owned()
    } else if text_eq(n, "batch_id") || text_eq(n, "batch") || text_eq(n, "批次") || text_eq(
        n,
        "batch_no",
    ) {
        "batch_id".to_owned()
    } else {
        String::new()
    }
}

/// The canonical field of each name, in order.
pub fn canonicalized_names(names: &Vec<String>) -> (r: Vec<String>)
    ensures
        r.deep_view() == names.deep_view().map_values(|n: Seq<char>| canonical_spec(n)),
{
    let mut out: Vec<String> = Vec::new();
    let mut i: usize = 0;
    while i < names.len()
        invariant
            0 <= i <= names@.len(),
            out@.len() == i,
            forall|k: int| 0 <= k < i ==> #[trigger] out@[k]@ == canonical_spec(names@[k]@),
        decreases names.len() - i,
    {
        out.push(canonical_name(names[i].as_str()));
        i += 1;
    }
    assert(out.deep_view() =~= names.deep_view().map_values(|n: Seq<char>| canonical_spec(n)));
    out
}

/// Columns whose canonical field differs from their name.
pub open spec fn mappable(t: Seq<ColumnView>) -> Seq<usize> {
    positions_where(
        t.len(),
        |c: int| canonical_spec(t[c].name).len() > 0 && canonical_spec(t[c].name) != t[c].name,
    )
}

/// Abstract value of a mapping suggestion.
pub open spec fn mapping_view(m: MappingSuggestion) -> (Seq<char>, Seq<char>, Seq<char>, Seq<char>) {
    (m.source_name@, m.target_name@, m.confidence@, m.status@)
}

/// Suggests renaming each column whose canonical field differs from its name.
pub fn suggest_mappings(table: &DataTable) -> (r: Vec<MappingSuggestion>)
    ensures
        r@.len() == mappable(table@).len(),
        forall|i: int|
            0 <= i < r@.len() ==> #[trigger] mapping_view(r@[i]) == (
                table@[mappable(table@)[i] as int].name,
                canonical_spec(table@[mappable(table@)[i] as int].name),
                "推荐"@,
                "待应用"@,
            ),
{
    let ghost keep = |c: int|
        canonical_spec(table@[c].name).len() > 0 && canonical_spec(table@[c].name) != table@[c].name;
    let mut out: Vec<MappingSuggestion> = Vec::new();
    let mut c: usize = 0;
    while c < table.columns.len()
        invariant
            keep == (|c: int|
                canonical_spec(table@[c].name).len() > 0 && canonical_spec(table@[c].name)
                    != table@[c].name),
            0 <= c <= table@.len(),
            out@.len() == positions_where(c as nat, keep).len(),
            forall|i: int|
                0 <= i < out@.len() ==> #[trigger] mapping_view(out@[i]) == (
                    table@[positions_where(c as nat, keep)[i] as int].name,
                    canonical_spec(table@[positions_where(c as nat, keep)[i] as int].name),
                    "推荐"@,
                    "待应用"@,
                ),
        decreases table.columns.len() - c,
    {
        let ghost p = positions_where(c as nat, keep);
        assert(positions_where((c + 1) as nat, keep) == if keep(c as int) {
            p.push(c)
        } else {
            p
        });
        let name = &table.columns[c].name;
        let target = canonical_name(name.as_str());
        if !target.as_str().is_empty() && !text_eq(target.as_str(), name.as_str()) {
            out.push(
                MappingSuggestion {
                    source_name: name.clone(),
                    target_name: target,
                    confidence: "推荐".to_owned(),
                    status: "待应用".to_owned(),
                },
            );
        }
        c += 1;
    }
    assert(keep == (|c: int|
        canonical_spec(table@[c].name).len() > 0 && canonical_spec(table@[c].name)
            != table@[c].name));
    out
}

/// A name that looks like a key: ending in `id` or containing `code`.
pub open spec fn key_like(name: Seq<char>) -> bool {
    (name.len() >= 2 && name.subrange(name.len() - 2, name.len() as int) == "id"@)
        || contains_text(name, "code"@)
}

fn key_like_name(name: &str) -> (r: bool)
    ensures
        r == key_like(name@),
{
    let v = to_chars(name);
    let n = v.len();
    proof {
        reveal_strlit("id");
    }
    let ends = n >= 2 && v[n - 2] == 'i' && v[n - 1] == 'd';
    proof {
        assert("id"@ =~= seq!['i', 'd']);
        if name@.len() >= 2 {
            let tail = name@.subrange(name@.len() - 2, name@.len() as int);
            assert(tail =~= seq![name@[name@.len() - 2], name@[name@.len() - 1]]);
        }
    }
    ends || contains(name, "code")
}

/// Two names suggest a join: equal, or with the same non-empty canonical field.
pub open spec fn join_match(left: Seq<char>, right: Seq<char>) -> bool {
    left == right || (canonical_spec(left).len() > 0 && canonical_spec(left) == canonical_spec(right))
}

/// The suggestion for a pair of matching names.
pub open spec fn join_suggestion_spec(dataset: Seq<char>, left: Seq<char>, right: Seq<char>) -> (
    Seq<char>,
    Seq<char>,
    Seq<char>,
    Seq<char>,
    Seq<char>,
) {
    (
        dataset,
        left,
        right,
        if key_like(left) {
            "左连接"@
        } else {
            "内连接"@
        },
        if left == right {
            "字段同名，可直接按主键尝试融合"@
        } else {
            "字段语义接近："@ + left + " ≈ "@ + right
        },
    )
}

/// Abstract value of a join suggestion.
pub open spec fn join_view(j: JoinSuggestion) -> (Seq<char>, Seq<char>, Seq<char>, Seq<char>, Seq<char>) {
    (j.target_dataset@, j.left_key@, j.right_key@, j.join_type@, j.reason@)
}

/// Suggestions for one other dataset: every matching (left, right) name pair,
/// left names outer, right names inner.
pub open spec fn pair_suggestions(
    dataset: Seq<char>,
    left: Seq<Seq<char>>,
    right: Seq<Seq<char>>,
) -> Seq<(Seq<char>, Seq<char>, Seq<char>, Seq<char>, Seq<char>)>
    decreases left.len(),
{
    if left.len() == 0 {
        Seq::empty()
    } else {
        pair_suggestions(dataset, left.drop_last(), right) + right_matches(
            dataset,
            left.last(),
            right,
        )
    }
}

/// Suggestions pairing one left name with each matching right name.
pub open spec fn right_matches(
    dataset: Seq<char>,
    l: Seq<char>,
    right: Seq<Seq<char>>,
) -> Seq<(Seq<char>, Seq<char>, Seq<char>, Seq<char>, Seq<char>)>
    decreases right.len(),
{
    if right.len() == 0 {
        Seq::empty()
    } else {
        let p = right_matches(dataset, l, right.drop_last());
        if join_match(l, right.last()) {
            p.push(join_suggestion_spec(dataset, l, right.last()))
        } else {
            p
        }
    }
}

/// All suggestions over the other datasets (skipping one named like the
/// current one), in order.
pub open spec fn all_join_suggestions(
    current: Seq<char>,
    left: Seq<Seq<char>>,
    others: Seq<(Seq<char>, Seq<Seq<char>>)>,
) -> Seq<(Seq<char>, Seq<char>, Seq<char>, Seq<char>, Seq<char>)>
    decreases others.len(),
{
    if others.len() == 0 {
        Seq::empty()
    } else {
        let prev = all_join_suggestions(current, left, others.drop_last());
        let (name, right) = others.last();
        if name == current {
            prev
        } else {
            prev + pair_suggestions(name, left, right)
        }
    }
}

fn make_suggestion(dataset: &str, left: &String, right: &String) -> (r: JoinSuggestion)
    ensures
        join_view(r) == join_suggestion_spec(dataset@, left@, right@),
{
    let join_type = if key_like_name(left.as_str()) {
        "左连接".to_owned()
    } else {
        "内连接".to_owned()
    };
    let reason = if text_eq(left.as_str(), right.as_str()) {
        "字段同名，可直接按主键尝试融合".to_owned()
    } else {
        let a = concat("字段语义接近：", left.as_str());
        let b = concat(a.as_str(), " ≈ ");
        concat(b.as_str(), right.as_str())
    };
    JoinSuggestion {
        target_dataset: dataset.to_owned(),
        left_key: left.clone(),
        right_key: right.clone(),
        join_type,
        reason,
    }
}

/// Names of the columns of each other dataset.
pub open spec fn others_view(others: Seq<(String, DataTable)>) -> Seq<(Seq<char>, Seq<Seq<char>>)> {
    others.map_values(|o: (String, DataTable)| (o.0@, crate::model::names_of(o.1@)))
}

/// Suggests joins with other datasets by equal or canonically equal column
/// names; at most eight suggestions.
pub fn build_join_suggestions(
    current_name: &str,
    current_table: &DataTable,
    others: &Vec<(String, DataTable)>,
) -> (r: Vec<JoinSuggestion>)
    ensures
        ({
            let all = all_join_suggestions(
                current_name@,
                crate::model::names_of(current_table@),
                others_view(others@),
            );
            &&& r@.len() == if all.len() < 8 {
                all.len()
            } else {
                8
            }
            &&& forall|i: int| 0 <= i < r@.len() ==> #[trigger] join_view(r@[i]) == all[i]
        }),
{
    let left = current_table.column_names();
    let ghost lv = left.deep_view();
    let ghost ov = others_view(others@);
    let mut out: Vec<JoinSuggestion> = Vec::new();
    let mut d: usize = 0;
    while d < others.len()
        invariant
            lv == left.deep_view(),
            lv == crate::model::names_of(current_table@),
            ov == others_view(others@),
            0 <= d <= others@.len(),
            out@.len() == all_join_suggestions(current_name@, lv, ov.take(d as int)).len(),
            forall|i: int|
                0 <= i < out@.len() ==> #[trigger] join_view(out@[i]) == all_join_suggestions(
                    current_name@,
                    lv,
                    ov.take(d as int),
                )[i],
        decreases others.len() - d,
    {
        assert(ov.take(d + 1).drop_last() =~= ov.take(d as int));
        let (name, table) = &others[d];
        assert(ov.take(d + 1).last() == (name@, crate::model::names_of(table@)));
        if !text_eq(name.as_str(), current_name) {
            let right = table.column_names();
            let ghost rv = right.deep_view();
            let ghost base = out@;
            let ghost base_all = all_join_suggestions(current_name@, lv, ov.take(d as int));
            assert(forall|i: int| 0 <= i < base.len() ==> #[trigger] join_view(base[i]) == base_all[i]);
            let mut li: usize = 0;
            while li < left.len()
                invariant
                    lv == left.deep_view(),
                    rv == right.deep_view(),
                    0 <= li <= lv.len(),
                    out@.len() == base.len() + pair_suggestions(name@, lv.take(li as int), rv).len(),
                    forall|i: int| 0 <= i < base.len() ==> out@[i] == base[i],
                    forall|i: int|
                        0 <= i < pair_suggestions(name@, lv.take(li as int), rv).len()
                            ==> #[trigger] join_view(out@[base.len() + i]) == pair_suggestions(
                            name@,
                            lv.take(li as int),
                            rv,
                        )[i],
                decreases left.len() - li,
            {
                assert(lv.take(li + 1).drop_last() =~= lv.take(li as int));
                let ghost before = pair_suggestions(name@, lv.take(li as int), rv);
                let ghost out_before = out@;
                let mut ri: usize = 0;
                while ri < right.len()
                    invariant
                        lv == left.deep_view(),
                        rv == right.deep_view(),
                        li < lv.len(),
                        0 <= ri <= rv.len(),
                        out@.len() == out_before.len() + right_matches(
                            name@,
                            lv[li as int],
                            rv.take(ri as int),
                        ).len(),
                        forall|i: int| 0 <= i < out_before.len() ==> out@[i] == out_before[i],
                        forall|i: int|
                            0 <= i < right_matches(name@, lv[li as int], rv.take(ri as int)).len()
                                ==> #[trigger] join_view(out@[out_before.len() + i]) == right_matches(
                                name@,
                                lv[li as int],
                                rv.take(ri as int),
                            )[i],
                    decreases right.len() - ri,
                {
                    assert(rv.take(ri + 1).drop_last() =~= rv.take(ri as int));
                    let l = &left[li];
                    let r = &right[ri];
                    let same = text_eq(l.as_str(), r.as_str());
                    let lc = canonical_name(l.as_str());
                    let rc = canonical_name(r.as_str());
                    if same || (!lc.as_str().is_empty() && text_eq(lc.as_str(), rc.as_str())) {
                        out.push(make_suggestion(name.as_str(), l, r));
                    }
                    ri += 1;
                }
                assert(rv.take(rv.len() as int) =~= rv);
                assert(pair_suggestions(name@, lv.take(li + 1), rv) == before + right_matches(
                    name@,
                    lv[li as int],
                    rv,
                ));
                assert forall|i: int|
                    0 <= i < pair_suggestions(name@, lv.take(li + 1), rv).len() implies #[trigger] join_view(
                    out@[base.len() + i],
                ) == pair_suggestions(name@, lv.take(li + 1), rv)[i] by {
                    if i < before.len() {
                        assert(out@[base.len() + i] == out_before[base.len() + i]);
                    } else {
                        let j = i - before.len();
                        assert(out@[out_before.len() + j] == out@[base.len() + i]);
                    }
                }
                li += 1;
            }
            assert(lv.take(lv.len() as int) =~= lv);
            assert(all_join_suggestions(current_name@, lv, ov.take(d + 1)) == base_all
                + pair_suggestions(name@, lv, rv));
            assert forall|i: int|
                0 <= i < all_join_suggestions(current_name@, lv, ov.take(d + 1)).len() implies #[trigger] join_view(
                out@[i],
            ) == all_join_suggestions(current_name@, lv, ov.take(d + 1))[i] by {
                if i >= base.len() {
                    let j = i - base.len();
                    assert(out@[base.len() + j] == out@[i]);
                } else {
                    assert(out@[i] == base[i]);
                    assert(join_view(base[i]) == base_all[i]);
                }
            }
        }
        d += 1;
    }
    assert(ov.take(others@.len() as int) =~= ov);
    out.truncate(8);
    out
}

/// The configured column when it names a column.
pub open spec fn configured_column(t: Seq<ColumnView>, configured: Seq<char>) -> Option<Seq<char>> {
    let c = trim_spec(configured);
    if c.len() > 0 && has_name(t, c) {
        Some(c)
    } else {
        None
    }
}

/// A column whose trimmed, non-empty cells fill every row with distinct values.
pub open spec fn unique_full(c: ColumnView, height: nat) -> bool {
    let v = samples(c.values);
    v.len() > 0 && v.len() == height && distinct_count(v) == height
}

/// The first column satisfying `f`.
pub open spec fn first_column_where(t: Seq<ColumnView>, f: spec_fn(ColumnView) -> bool) -> Option<
    int,
>
    decreases t.len(),
{
    if t.len() == 0 {
        None
    } else {
        match first_column_where(t.drop_last(), f) {
            Some(i) => Some(i),
            None => if f(t.last()) {
                Some(t.len() - 1)
            } else {
                None
            },
        }
    }
}

/// Whether a column is a full unique key of a table of the given height.
pub open spec fn key_column(height: nat) -> spec_fn(ColumnView) -> bool {
    |c: ColumnView| unique_full(c, height)
}

/// The primary key: the configured column if it exists, else the first column
/// whose trimmed cells are all present and distinct, else none (empty).
pub open spec fn primary_key_spec(t: Seq<ColumnView>, configured: Seq<char>) -> Seq<char> {
    match configured_column(t, configured) {
        Some(c) => c,
        None => match first_column_where(t, key_column(height_of(t))) {
            Some(i) => t[i].name,
            None => Seq::empty(),
        },
    }
}

/// Whether the trimmed, non-empty cells are all present and distinct.
fn is_unique_full(column: &crate::model::TableColumn, height: usize) -> (r: bool)
    ensures
        r == unique_full(column@, height as nat),
{
    let v = crate::aggregate::sample_texts(&column.values);
    if v.len() == 0 || v.len() != height {
        return false;
    }
    let firsts = first_occurrences(&v);
    firsts.len() == height
}

/// Chooses the primary key (see `primary_key_spec`).
pub fn resolve_primary_key(table: &DataTable, configured: &str) -> (r: String)
    ensures
        r@ == primary_key_spec(table@, configured@),
{
    let c = trim(configured);
    if !c.as_str().is_empty() && crate::model::contains_column(table, c.as_str()) {
        return c;
    }
    let h = table.height();
    let ghost f = key_column(h as nat);
    let mut i: usize = 0;
    while i < table.columns.len()
        invariant
            h == height_of(table@),
            configured_column(table@, configured@) is None,
            f == key_column(h as nat),
            0 <= i <= table@.len(),
            first_column_where(table@.take(i as int), f) is None,
        decreases table.columns.len() - i,
    {
        assert(table@.take(i + 1).drop_last() =~= table@.take(i as int));
        if is_unique_full(&table.columns[i], h) {
            proof {
                assert(table@.take(i + 1).last() == table@[i as int]);
                assert(first_column_where(table@.take(i + 1), f) == Some(i as int));
                lemma_first_column_prefix(table@, f, i + 1);
            }
            return table.columns[i].name.clone();
        }
        i += 1;
    }
    assert(table@.take(table@.len() as int) =~= table@);
    String::new()
}

proof fn lemma_first_column_prefix(t: Seq<ColumnView>, f: spec_fn(ColumnView) -> bool, n: int)
    requires
        0 <= n <= t.len(),
        first_column_where(t.take(n), f) is Some,
    ensures
        first_column_where(t, f) == first_column_where(t.take(n), f),
    decreases t.len() - n,
{
    if n < t.len() {
        assert(t.take(n + 1).drop_last() =~= t.take(n));
        lemma_first_column_prefix(t, f, n + 1);
    } else {
        assert(t.take(n) =~= t);
    }
}

/// Configured composite keys: trimmed, non-empty names of existing columns, kept
/// only when there are at least two.
pub open spec fn composite_keys_spec(t: Seq<ColumnView>, configured: Seq<Seq<char>>) -> Seq<Seq<char>> {
    let kept = existing_names(t, configured);
    if kept.len() >= 2 {
        kept
    } else {
        Seq::empty()
    }
}

/// The trimmed, non-empty names that name columns, in order.
pub open spec fn existing_names(t: Seq<ColumnView>, names: Seq<Seq<char>>) -> Seq<Seq<char>>
    decreases names.len(),
{
    if names.len() == 0 {
        Seq::empty()
    } else {
        let p = existing_names(t, names.drop_last());
        let c = trim_spec(names.last());
        if c.len() > 0 && has_name(t, c) {
            p.push(c)
        } else {
            p
        }
    }
}

/// Chooses the composite keys (see `composite_keys_spec`).
pub fn resolve_composite_keys(table: &DataTable, configured: &Vec<String>) -> (r: Vec<String>)
    ensures
        r.deep_view() == composite_keys_spec(table@, configured.deep_view()),
{
    let mut kept: Vec<String> = Vec::new();
    let mut i: usize = 0;
    while i < configured.len()
        invariant
            0 <= i <= configured@.len(),
            kept.deep_view() == existing_names(table@, configured.deep_view().take(i as int)),
        decreases configured.len() - i,
    {
        assert(configured.deep_view().take(i + 1).drop_last() =~= configured.deep_view().take(
            i as int,
        ));
        let c = trim(configured[i].as_str());
        if !c.as_str().is_empty() && crate::model::contains_column(table, c.as_str()) {
            let ghost before = kept.deep_view();
            let ghost cv = c@;
            kept.push(c);
            assert(kept.deep_view() =~= before.push(cv));
        }
        i += 1;
    }
    assert(configured.deep_view().take(configured@.len() as int) =~= configured.deep_view());
    if kept.len() >= 2 {
        kept
    } else {
        Vec::new()
    }
}

/// How many present cells (untrimmed) read as date-times.
pub open spec fn datetime_like_count(c: ColumnView) -> nat {
    let p = present(c.values);
    positions_where(p.len(), |k: int| parsed_datetime(p[k]) is Some).len()
}

/// A time-like column: typed as date-time, or with present cells that read as
/// date-times numbering at least 70% (rounded down) of its trimmed, non-empty
/// cells.
pub open spec fn time_like(c: ColumnView) -> bool {
    c.logical_type == LogicalType::DateTime || datetime_like_count(c) * 100 / (if samples(
        c.values,
    ).len() < 1 {
        1
    } else {
        samples(c.values).len()
    }) >= 70
}

/// Whether a column is time-like.
pub open spec fn time_column() -> spec_fn(ColumnView) -> bool {
    |c: ColumnView| time_like(c)
}

/// The time column: the configured column if it exists, else the first time-like
/// column, else none (empty).
pub open spec fn time_column_spec(t: Seq<ColumnView>, configured: Seq<char>) -> Seq<char> {
    match configured_column(t, configured) {
        Some(c) => c,
        None => match first_column_where(t, time_column()) {
            Some(i) => t[i].name,
            None => Seq::empty(),
        },
    }
}

/// How many present cells read as date-times.
pub fn count_datetime_like(column: &crate::model::TableColumn) -> (r: usize)
    ensures
        r == datetime_like_count(column@),
{
    let p = crate::inference::present_cells(&column.values);
    let ghost s = p.deep_view();
    let ghost keep = |k: int| parsed_datetime(s[k]) is Some;
    let mut n: usize = 0;
    let mut j: usize = 0;
    while j < p.len()
        invariant
            s == p.deep_view(),
            s == present(column@.values),
            keep == (|k: int| parsed_datetime(s[k]) is Some),
            0 <= j <= s.len(),
            n == positions_where(j as nat, keep).len(),
            n <= j,
        decreases p.len() - j,
    {
        let ghost q = positions_where(j as nat, keep);
        assert(s[j as int] == p@[j as int]@);
        if looks_like_datetime(p[j].as_str()) {
            n += 1;
        }
        assert(positions_where((j + 1) as nat, keep) == if keep(j as int) {
            q.push(j)
        } else {
            q
        });
        j += 1;
    }
    n
}

fn is_time_like(column: &crate::model::TableColumn) -> (r: bool)
    ensures
        r == time_like(column@),
{
    if column.logical_type == LogicalType::DateTime {
        return true;
    }
    let matched = count_datetime_like(column);
    let v = crate::aggregate::sample_texts(&column.values);
    let denominator: u128 = if v.len() < 1 { 1 } else { v.len() as u128 };
    (matched as u128) * 100 / denominator >= 70
}

/// Chooses the time column (see `time_column_spec`).
pub fn resolve_time_column(table: &DataTable, configured: &str) -> (r: String)
    ensures
        r@ == time_column_spec(table@, configured@),
{
    let c = trim(configured);
    if !c.as_str().is_empty() && crate::model::contains_column(table, c.as_str()) {
        return c;
    }
    let ghost f = time_column();
    let mut i: usize = 0;
    while i < table.columns.len()
        invariant
            configured_column(table@, configured@) is None,
            f == time_column(),
            0 <= i <= table@.len(),
            first_column_where(table@.take(i as int), f) is None,
        decreases table.columns.len() - i,
    {
        assert(table@.take(i + 1).drop_last() =~= table@.take(i as int));
        if is_time_like(&table.columns[i]) {
            proof {
                assert(table@.take(i + 1).last() == table@[i as int]);
                assert(first_column_where(table@.take(i + 1), f) == Some(i as int));
                lemma_first_column_prefix(table@, f, i + 1);
            }
            return table.columns[i].name.clone();
        }
        i += 1;
    }
    assert(table@.take(table@.len() as int) =~= table@);
    String::new()
}

} // verus!
