//! Flattening JSON documents into tables: nested object keys joined with
//! dots, arrays of plain values joined with "; ", one row per record and one
//! column per key, the keys in order.

use vstd::prelude::*;
use crate::error::TableError;
use crate::model::{ColumnView, DataTable};
use crate::sorting::{compare_texts, lemma_text_order, text_order};
use crate::text::{concat, join_spec, join_texts, text_eq, trim, trim_spec};

verus! {

/// A JSON value as the loader reads it. Numbers are held as the text
/// serde_json prints for them; arrays and objects also carry their compact
/// JSON text. An object's entries are in the order its map yields them.
#[derive(Debug)]
pub enum JsonNode {
    Null,
    Bool(bool),
    Number(String),
    Text(String),
    Array(Vec<JsonNode>, String),
    Object(Vec<(String, JsonNode)>, String),
}

/// Whether a value is neither an array nor an object.
pub open spec fn is_plain(n: JsonNode) -> bool {
    !(n is Array) && !(n is Object)
}

/// The cell text of a plain value: none for null and for null words, the
/// trimmed text of a string, `true`/`false`, the number's text.
pub open spec fn plain_text(n: JsonNode) -> Option<Seq<char>> {
    match n {
        JsonNode::Null => None,
        JsonNode::Bool(b) => Some(if b { "true"@ } else { "false"@ }),
        JsonNode::Number(t) => Some(t@),
        JsonNode::Text(t) => if crate::inference::null_word(t@) {
            None
        } else {
            Some(trim_spec(t@))
        },
        JsonNode::Array(_, t) => Some(t@),
        JsonNode::Object(_, t) => Some(t@),
    }
}

/// The texts of the values that have one, in order.
pub open spec fn plain_texts(items: Seq<JsonNode>) -> Seq<Seq<char>>
    decreases items.len(),
{
    if items.len() == 0 {
        Seq::empty()
    } else {
        let k = plain_texts(items.drop_last());
        match plain_text(items.last()) {
            Some(t) => k.push(t),
            None => k,
        }
    }
}

/// The key of a child: the entry's key, after the prefix and a dot when
/// there is a prefix.
pub open spec fn child_key(prefix: Seq<char>, key: Seq<char>) -> Seq<char> {
    if prefix.len() == 0 {
        key
    } else {
        prefix + "."@ + key
    }
}

/// The (key, cell) pairs a value flattens to under a prefix, in the order
/// they are written; a later pair for the same key replaces an earlier one.
pub open spec fn flat_pairs(prefix: Seq<char>, node: JsonNode) -> Seq<(Seq<char>, Option<Seq<char>>)>
    decreases node, 1int,
{
    match node {
        JsonNode::Object(entries, _) => flat_entries(prefix, entries@, entries@.len() as int),
        JsonNode::Array(items, text) => if forall|i: int| 0 <= i < items@.len() ==> is_plain(#[trigger] items@[i]) {
            seq![(prefix, Some(join_spec(plain_texts(items@), "; "@)))]
        } else {
            seq![(prefix, Some(text@))]
        },
        _ => seq![(prefix, plain_text(node))],
    }
}

/// The pairs of the first `n` entries of an object.
pub open spec fn flat_entries(prefix: Seq<char>, entries: Seq<(String, JsonNode)>, n: int) -> Seq<(Seq<char>, Option<Seq<char>>)>
    decreases entries, n,
{
    if n <= 0 || n > entries.len() {
        Seq::empty()
    } else {
        flat_entries(prefix, entries, n - 1) + flat_pairs(child_key(prefix, entries[n - 1].0@), entries[n - 1].1)
    }
}

} // verus!

verus! {

fn plain_cell(n: &JsonNode) -> (r: Option<String>)
    ensures
        r.deep_view() == plain_text(*n),
{
    match n {
        JsonNode::Null => None,
        JsonNode::Bool(b) => Some(if *b { "true".to_owned() } else { "false".to_owned() }),
        JsonNode::Number(t) => Some(t.clone()),
        JsonNode::Text(t) => if crate::inference::null_marked(t.as_str()) {
            None
        } else {
            Some(trim(t.as_str()))
        },
        JsonNode::Array(_, t) => Some(t.clone()),
        JsonNode::Object(_, t) => Some(t.clone()),
    }
}

fn joined_plain(items: &Vec<JsonNode>) -> (r: String)
    ensures
        r@ == join_spec(plain_texts(items@), "; "@),
{
    let mut texts: Vec<String> = Vec::new();
    let mut i: usize = 0;
    while i < items.len()
        invariant
            0 <= i <= items@.len(),
            texts.deep_view() == plain_texts(items@.take(i as int)),
        decreases items.len() - i,
    {
        assert(items@.take(i + 1).drop_last() =~= items@.take(i as int));
        assert(items@.take(i + 1).last() == items@[i as int]);
        let ghost before = texts.deep_view();
        match plain_cell(&items[i]) {
            Some(t) => {
                texts.push(t);
                assert(texts.deep_view() =~= before.push(plain_text(items@[i as int])->0));
            },
            None => {},
        }
        i += 1;
    }
    assert(items@.take(items@.len() as int) =~= items@);
    join_texts(&texts, "; ")
}

fn all_plain(items: &Vec<JsonNode>) -> (r: bool)
    ensures
        r == forall|i: int| 0 <= i < items@.len() ==> is_plain(#[trigger] items@[i]),
{
    let mut i: usize = 0;
    while i < items.len()
        invariant
            0 <= i <= items@.len(),
            forall|k: int| 0 <= k < i ==> is_plain(#[trigger] items@[k]),
        decreases items.len() - i,
    {
        match &items[i] {
            JsonNode::Array(_, _) => {
                assert(!is_plain(items@[i as int]));
                return false;
            },
            JsonNode::Object(_, _) => {
                assert(!is_plain(items@[i as int]));
                return false;
            },
            _ => {},
        }
        i += 1;
    }
    true
}

fn child_key_exec(prefix: &str, key: &str) -> (r: String)
    ensures
        r@ == child_key(prefix@, key@),
{
    if prefix.is_empty() {
        key.to_owned()
    } else {
        let dotted = concat(prefix, ".");
        concat(dotted.as_str(), key)
    }
}

/// Appends the pairs a value flattens to under a prefix (see `flat_pairs`).
pub fn flatten_json(prefix: &str, node: &JsonNode, out: &mut Vec<(String, Option<String>)>)
    ensures
        final(out).deep_view() == old(out).deep_view() + flat_pairs(prefix@, *node),
    decreases node,
{
    match node {
        JsonNode::Object(entries, _) => {
            let ghost start = out.deep_view();
            let mut i: usize = 0;
            while i < entries.len()
                invariant
                    0 <= i <= entries@.len(),
                    *node is Object,
                    node->Object_0 == *entries,
                    out.deep_view() == start + flat_entries(prefix@, entries@, i as int),
                decreases entries.len() - i,
            {
                let key = child_key_exec(prefix, entries[i].0.as_str());
                let ghost before = out.deep_view();
                proof {
                    assert(decreases_to!(*node => entries@[i as int].1));
                }
                flatten_json(key.as_str(), &entries[i].1, out);
                assert(out.deep_view() =~= start + flat_entries(prefix@, entries@, i + 1));
                i += 1;
            }
        },
        JsonNode::Array(items, text) => {
            let ghost before = out.deep_view();
            if all_plain(items) {
                out.push((prefix.to_owned(), Some(joined_plain(items))));
            } else {
                out.push((prefix.to_owned(), Some(text.clone())));
            }
            assert(out.deep_view() =~= before + flat_pairs(prefix@, *node));
        },
        _ => {
            let ghost before = out.deep_view();
            out.push((prefix.to_owned(), plain_cell(node)));
            assert(out.deep_view() =~= before + flat_pairs(prefix@, *node));
        },
    }
}

} // verus!

verus! {

/// The records of a document: the items of a root array, or a root object on
/// its own. Any other root is refused.
pub open spec fn records_of(root: JsonNode) -> Option<Seq<JsonNode>> {
    match root {
        JsonNode::Array(items, _) => Some(items@),
        JsonNode::Object(_, _) => Some(seq![root]),
        _ => None,
    }
}

/// Splits a document into its records (see `records_of`).
pub fn json_records(root: JsonNode) -> (r: Result<Vec<JsonNode>, TableError>)
    ensures
        match records_of(root) {
            Some(s) => r matches Ok(v) && v@ == s,
            None => r == Err::<Vec<JsonNode>, TableError>(TableError::JsonRootNotContainer),
        },
{
    match root {
        JsonNode::Array(items, _) => Ok(items),
        JsonNode::Object(entries, text) => {
            let mut v: Vec<JsonNode> = Vec::new();
            v.push(JsonNode::Object(entries, text));
            Ok(v)
        },
        _ => Err(TableError::JsonRootNotContainer),
    }
}

/// The pairs a record flattens to.
pub open spec fn record_pairs(n: JsonNode) -> Seq<(Seq<char>, Option<Seq<char>>)> {
    flat_pairs(Seq::empty(), n)
}

/// The cell a key ends with: the value of the last pair with that key, or
/// missing when no pair has it.
pub open spec fn last_value(pairs: Seq<(Seq<char>, Option<Seq<char>>)>, key: Seq<char>) -> Option<Seq<char>>
    decreases pairs.len(),
{
    if pairs.len() == 0 {
        None
    } else if pairs.last().0 == key {
        pairs.last().1
    } else {
        last_value(pairs.drop_last(), key)
    }
}

/// Every key of every record.
pub open spec fn json_keys(records: Seq<JsonNode>) -> Set<Seq<char>> {
    Set::new(
        |k: Seq<char>|
            exists|r: int, i: int|
                0 <= r < records.len() && 0 <= i < record_pairs(records[r]).len() && #[trigger] record_pairs(
                    records[r],
                )[i].0 == k,
    )
}

/// Texts in strictly increasing order.
pub open spec fn strictly_sorted(s: Seq<Seq<char>>) -> bool {
    forall|i: int, j: int| 0 <= i < j < s.len() ==> text_order(#[trigger] s[i], #[trigger] s[j]) < 0
}

/// The rows of the records under the given headers.
pub open spec fn json_rows(records: Seq<JsonNode>, headers: Seq<Seq<char>>) -> Seq<Seq<Option<Seq<char>>>> {
    records.map_values(
        |n: JsonNode| headers.map_values(|h: Seq<char>| last_value(record_pairs(n), h)),
    )
}

/// Two strictly sorted sequences of the same texts are the same sequence.
pub proof fn lemma_strictly_sorted_unique(a: Seq<Seq<char>>, b: Seq<Seq<char>>)
    requires
        strictly_sorted(a),
        strictly_sorted(b),
        a.to_set() == b.to_set(),
    ensures
        a == b,
    decreases a.len(),
{
    if a.len() == 0 {
        if b.len() > 0 {
            assert(b.to_set().contains(b[0]));
            assert(!a.to_set().contains(b[0]));
        }
        assert(a =~= b);
    } else if b.len() == 0 {
        assert(a.to_set().contains(a[0]));
    } else {
        assert(a.to_set().contains(a[0]));
        assert(b.to_set().contains(b[0]));
        let i = choose|i: int| 0 <= i < b.len() && b[i] == a[0];
        let j = choose|j: int| 0 <= j < a.len() && a[j] == b[0];
        lemma_text_order(a[0], b[0], a[0]);
        if i > 0 {
            assert(text_order(b[0], b[i]) < 0);
            if j > 0 {
                assert(text_order(a[0], a[j]) < 0);
            }
        }
        assert(a[0] == b[0]);
        let a2 = a.drop_first();
        let b2 = b.drop_first();
        assert forall|x: Seq<char>| a2.to_set().contains(x) implies b2.to_set().contains(x) by {
            let k = choose|k: int| 0 <= k < a2.len() && a2[k] == x;
            assert(a[k + 1] == x);
            assert(text_order(a[0], x) < 0);
            assert(b.to_set().contains(x));
            let m = choose|m: int| 0 <= m < b.len() && b[m] == x;
            if m == 0 {
                lemma_text_order(x, x, x);
            }
            assert(b2[m - 1] == x);
        }
        assert forall|x: Seq<char>| b2.to_set().contains(x) implies a2.to_set().contains(x) by {
            let k = choose|k: int| 0 <= k < b2.len() && b2[k] == x;
            assert(b[k + 1] == x);
            assert(text_order(b[0], x) < 0);
            assert(a.to_set().contains(x));
            let m = choose|m: int| 0 <= m < a.len() && a[m] == x;
            if m == 0 {
                lemma_text_order(x, x, x);
            }
            assert(a2[m - 1] == x);
        }
        assert(a2.to_set() =~= b2.to_set());
        lemma_strictly_sorted_unique(a2, b2);
        assert(a =~= seq![a[0]] + a2);
        assert(b =~= seq![b[0]] + b2);
    }
}

/// The keys of the records in increasing order, each once.
pub open spec fn sorted_json_keys(records: Seq<JsonNode>) -> Seq<Seq<char>> {
    choose|h: Seq<Seq<char>>| strictly_sorted(h) && h.to_set() == json_keys(records)
}

/// The table of a document's records: one column per key in increasing
/// order, one row per record, each cell the value the record's last pair
/// with that key holds.
pub open spec fn json_table_spec(records: Seq<JsonNode>) -> Seq<ColumnView> {
    let h = sorted_json_keys(records);
    crate::loader::loaded_table(h, json_rows(records, h))
}

} // verus!

verus! {

/// Adds a text to a strictly sorted list of texts unless it is there.
fn insert_sorted(keys: &mut Vec<String>, k: &String)
    requires
        strictly_sorted(old(keys).deep_view()),
    ensures
        strictly_sorted(final(keys).deep_view()),
        final(keys).deep_view().to_set() == old(keys).deep_view().to_set().insert(k@),
{
    let ghost s = keys.deep_view();
    let mut p: usize = 0;
    while p < keys.len() && compare_texts(keys[p].as_str(), k.as_str()) < 0
        invariant
            s == keys.deep_view(),
            0 <= p <= s.len(),
            forall|i: int| 0 <= i < p ==> text_order(#[trigger] s[i], k@) < 0,
        decreases keys.len() - p,
    {
        p += 1;
    }
    if p < keys.len() && text_eq(keys[p].as_str(), k.as_str()) {
        assert(s[p as int] == k@);
        assert(s.to_set().contains(k@));
        assert(s.to_set().insert(k@) =~= s.to_set());
        return;
    }
    proof {
        if p < s.len() {
            lemma_text_order(s[p as int], k@, s[p as int]);
            assert(text_order(k@, s[p as int]) < 0);
        }
    }
    keys.insert(p, k.clone());
    let ghost t = keys.deep_view();
    assert(t =~= s.take(p as int).push(k@) + s.skip(p as int));
    assert forall|i: int, j: int| 0 <= i < j < t.len() implies text_order(#[trigger] t[i], #[trigger] t[j]) < 0 by {
        if j < p {
            assert(t[i] == s[i] && t[j] == s[j]);
        } else if j == p {
            assert(t[i] == s[i]);
        } else if i == p {
            assert(t[j] == s[j - 1]);
            if j - 1 > p {
                lemma_text_order(k@, s[p as int], s[j - 1]);
                lemma_text_order(s[p as int], s[j - 1], k@);
                lemma_text_order(k@, s[j - 1], s[p as int]);
            }
        } else if i < p {
            assert(t[i] == s[i] && t[j] == s[j - 1]);
        } else {
            assert(t[i] == s[i - 1] && t[j] == s[j - 1]);
        }
    }
    assert forall|x: Seq<char>| t.to_set().contains(x) <==> s.to_set().insert(k@).contains(x) by {
        if t.to_set().contains(x) {
            let i = choose|i: int| 0 <= i < t.len() && t[i] == x;
            if i < p {
                assert(s[i] == x);
            } else if i > p {
                assert(s[i - 1] == x);
            }
        }
        if s.to_set().contains(x) {
            let i = choose|i: int| 0 <= i < s.len() && s[i] == x;
            if i < p {
                assert(t[i] == x);
            } else {
                assert(t[i + 1] == x);
            }
        }
        if x == k@ {
            assert(t[p as int] == x);
        }
    }
    assert(t.to_set() =~= s.to_set().insert(k@));
}

/// The value of the last pair with the given key (see `last_value`).
fn lookup_last(pairs: &Vec<(String, Option<String>)>, key: &String) -> (r: Option<String>)
    ensures
        r.deep_view() == last_value(pairs.deep_view(), key@),
{
    let ghost pv = pairs.deep_view();
    let mut i: usize = pairs.len();
    assert(pv.take(pv.len() as int) =~= pv);
    while i > 0
        invariant
            0 <= i <= pv.len(),
            pv == pairs.deep_view(),
            last_value(pv, key@) == last_value(pv.take(i as int), key@),
        decreases i,
    {
        let ghost q = pv.take(i as int);
        assert(q.drop_last() =~= pv.take(i - 1));
        assert(q.last() == pv[i - 1]);
        if text_eq(pairs[i - 1].0.as_str(), key.as_str()) {
            return match &pairs[i - 1].1 {
                Some(v) => Some(v.clone()),
                None => None,
            };
        }
        i -= 1;
    }
    None
}

/// Reads the table of a document's records (see `json_table_spec`).
pub fn json_table(records: &Vec<JsonNode>) -> (r: DataTable)
    ensures
        r@ == json_table_spec(records@),
{
    let ghost rs = records@;
    let mut keys: Vec<String> = Vec::new();
    let mut flat: Vec<Vec<(String, Option<String>)>> = Vec::new();
    let mut r: usize = 0;
    while r < records.len()
        invariant
            0 <= r <= rs.len(),
            rs == records@,
            flat@.len() == r,
            forall|q: int| 0 <= q < r ==> #[trigger] flat@[q].deep_view() == record_pairs(rs[q]),
            strictly_sorted(keys.deep_view()),
            keys.deep_view().to_set() == json_keys(rs.take(r as int)),
        decreases records.len() - r,
    {
        let mut pairs: Vec<(String, Option<String>)> = Vec::new();
        assert(pairs.deep_view() =~= Seq::<(Seq<char>, Option<Seq<char>>)>::empty());
        proof {
            reveal_strlit("");
        }
        let empty_prefix = "";
        assert(empty_prefix@ =~= Seq::<char>::empty());
        flatten_json(empty_prefix, &records[r], &mut pairs);
        let ghost pv = pairs.deep_view();
        assert(pv =~= Seq::<(Seq<char>, Option<Seq<char>>)>::empty() + flat_pairs(Seq::empty(), records@[r as int]));
        assert(pv =~= record_pairs(rs[r as int]));
        let ghost base = keys.deep_view().to_set();
        let mut i: usize = 0;
        while i < pairs.len()
            invariant
                0 <= i <= pv.len(),
                pv == pairs.deep_view(),
                strictly_sorted(keys.deep_view()),
                keys.deep_view().to_set() == base.union(
                    Set::new(|k: Seq<char>| exists|j: int| 0 <= j < i && #[trigger] pv[j].0 == k),
                ),
            decreases pairs.len() - i,
        {
            let ghost before = keys.deep_view().to_set();
            insert_sorted(&mut keys, &pairs[i].0);
            assert(keys.deep_view().to_set() =~= base.union(
                Set::new(|k: Seq<char>| exists|j: int| 0 <= j < i + 1 && #[trigger] pv[j].0 == k),
            )) by {
                assert forall|k: Seq<char>| keys.deep_view().to_set().contains(k) implies base.union(
                    Set::new(|k: Seq<char>| exists|j: int| 0 <= j < i + 1 && #[trigger] pv[j].0 == k),
                ).contains(k) by {
                    if k == pv[i as int].0 {
                    } else {
                        assert(before.contains(k));
                    }
                }
                assert forall|k: Seq<char>| base.union(
                    Set::new(|k: Seq<char>| exists|j: int| 0 <= j < i + 1 && #[trigger] pv[j].0 == k),
                ).contains(k) implies keys.deep_view().to_set().contains(k) by {
                    if !base.contains(k) {
                        let j = choose|j: int| 0 <= j < i + 1 && #[trigger] pv[j].0 == k;
                        if j < i {
                            assert(before.contains(k));
                        }
                    }
                }
            }
            i += 1;
        }
        let ghost next = rs.take(r + 1);
        let ghost prev = rs.take(r as int);
        let ghost fresh = Set::new(|k: Seq<char>| exists|j: int| 0 <= j < pv.len() && #[trigger] pv[j].0 == k);
        assert(json_keys(next) =~= json_keys(prev).union(fresh)) by {
            assert forall|k: Seq<char>| #[trigger] json_keys(next).contains(k) implies json_keys(prev).union(
                fresh,
            ).contains(k) by {
                let (q, j) = choose|q: int, j: int|
                    0 <= q < next.len() && 0 <= j < record_pairs(next[q]).len()
                        && #[trigger] record_pairs(next[q])[j].0 == k;
                if q < r {
                    assert(prev[q] == next[q]);
                    assert(record_pairs(prev[q])[j].0 == k);
                } else {
                    assert(pv[j].0 == k);
                }
            }
            assert forall|k: Seq<char>| #[trigger] json_keys(prev).union(fresh).contains(k) implies json_keys(
                next,
            ).contains(k) by {
                if json_keys(prev).contains(k) {
                    let (q, j) = choose|q: int, j: int|
                        0 <= q < prev.len() && 0 <= j < record_pairs(prev[q]).len()
                            && #[trigger] record_pairs(prev[q])[j].0 == k;
                    assert(next[q] == prev[q]);
                    assert(record_pairs(next[q])[j].0 == k);
                } else {
                    let j = choose|j: int| 0 <= j < pv.len() && #[trigger] pv[j].0 == k;
                    assert(next[r as int] == rs[r as int]);
                    assert(record_pairs(next[r as int])[j].0 == k);
                }
            }
        }
        flat.push(pairs);
        r += 1;
    }
    assert(rs.take(rs.len() as int) =~= rs);
    proof {
        let h = sorted_json_keys(rs);
        assert(strictly_sorted(keys.deep_view()) && keys.deep_view().to_set() == json_keys(rs));
        lemma_strictly_sorted_unique(h, keys.deep_view());
    }
    let ghost hv = keys.deep_view();
    let mut rows: Vec<Vec<Option<String>>> = Vec::new();
    let mut q: usize = 0;
    while q < flat.len()
        invariant
            0 <= q <= rs.len(),
            flat@.len() == rs.len(),
            rs == records@,
            hv == keys.deep_view(),
            forall|x: int| 0 <= x < rs.len() ==> #[trigger] flat@[x].deep_view() == record_pairs(rs[x]),
            rows.deep_view() == json_rows(rs.take(q as int), hv),
        decreases flat.len() - q,
    {
        let mut row: Vec<Option<String>> = Vec::new();
        let mut c: usize = 0;
        while c < keys.len()
            invariant
                0 <= c <= hv.len(),
                q < rs.len(),
                flat@.len() == rs.len(),
                hv == keys.deep_view(),
                flat@[q as int].deep_view() == record_pairs(rs[q as int]),
                row.deep_view() == hv.take(c as int).map_values(
                    |h: Seq<char>| last_value(record_pairs(rs[q as int]), h),
                ),
            decreases keys.len() - c,
        {
            let ghost before = row.deep_view();
            let cell = lookup_last(&flat[q], &keys[c]);
            row.push(cell);
            assert(row.deep_view() =~= before.push(last_value(record_pairs(rs[q as int]), hv[c as int])));
            assert(hv.take(c + 1).map_values(|h: Seq<char>| last_value(record_pairs(rs[q as int]), h))
                =~= hv.take(c as int).map_values(|h: Seq<char>| last_value(record_pairs(rs[q as int]), h)).push(
                last_value(record_pairs(rs[q as int]), hv[c as int]),
            ));
            c += 1;
        }
        assert(hv.take(hv.len() as int) =~= hv);
        let ghost before = rows.deep_view();
        rows.push(row);
        assert(rows.deep_view() =~= before.push(hv.map_values(|h: Seq<char>| last_value(record_pairs(rs[q as int]), h))));
        assert(json_rows(rs.take(q + 1), hv) =~= json_rows(rs.take(q as int), hv).push(
            hv.map_values(|h: Seq<char>| last_value(record_pairs(rs[q as int]), h)),
        ));
        q += 1;
    }
    assert(rs.take(rs.len() as int) =~= rs);
    crate::loader::build_table(keys, rows)
}

} // verus!

verus! {

/// The table of a JSON document: its records (see `records_of`) flattened
/// into one table (see `json_table_spec`).
pub fn parse_json_table(root: JsonNode) -> (r: Result<DataTable, TableError>)
    ensures
        match records_of(root) {
            Some(s) => r matches Ok(t) && t@ == json_table_spec(s),
            None => r == Err::<DataTable, TableError>(TableError::JsonRootNotContainer),
        },
{
    let records = json_records(root)?;
    Ok(json_table(&records))
}

/// What `serde_json::from_str::<serde_json::Value>` reads from a text, as a
/// node; none when it reports an error. The node also carries the text that
/// `serde_json::Value`'s `to_string` prints for numbers, arrays and objects.
/// Both calls belong to serde_json and depend on the text alone (without the
/// `preserve_order` feature an object's keys come out sorted).
pub uninterp spec fn json_document(text: Seq<char>) -> Option<JsonNode>;

#[verifier::external_type_specification]
#[verifier::external_body]
pub struct ExJsonValue(serde_json::Value);

/// Converts a `serde_json::Value` into a node, variant by variant: numbers by
/// their `to_string`, arrays and objects with their items and their own
/// `to_string`. Nothing is stated of it; `parse_json_document` speaks of the
/// result.
#[verifier::external_body]
fn node_of_value(value: &serde_json::Value) -> JsonNode {
    match value {
        serde_json::Value::Null => JsonNode::Null,
        serde_json::Value::Bool(flag) => JsonNode::Bool(*flag),
        serde_json::Value::Number(number) => JsonNode::Number(number.to_string()),
        serde_json::Value::String(text) => JsonNode::Text(text.clone()),
        serde_json::Value::Array(items) => JsonNode::Array(items.iter().map(node_of_value).collect(), value.to_string()),
        serde_json::Value::Object(map) => JsonNode::Object(
            map.iter().map(|(key, item)| (key.clone(), node_of_value(item))).collect(),
            value.to_string(),
        ),
    }
}

/// Calls `serde_json::from_str` into a `serde_json::Value` and converts the
/// value into a node. What it reads is named; JSON's grammar is not restated.
#[verifier::external_body]
pub fn parse_json_document(text: &str) -> (r: Option<JsonNode>)
    ensures
        r == json_document(text@),
{
    match serde_json::from_str::<serde_json::Value>(text) {
        Ok(value) => Some(node_of_value(&value)),
        Err(_) => None,
    }
}

/// The table of a JSON text: refused when serde_json cannot read it, else
/// the table of the document (see `parse_json_table`).
pub fn load_json_text(text: &str) -> (r: Result<DataTable, TableError>)
    ensures
        match json_document(text@) {
            None => r == Err::<DataTable, TableError>(TableError::JsonUnreadable),
            Some(root) => match records_of(root) {
                Some(s) => r matches Ok(t) && t@ == json_table_spec(s),
                None => r == Err::<DataTable, TableError>(TableError::JsonRootNotContainer),
            },
        },
{
    match parse_json_document(text) {
        Some(root) => parse_json_table(root),
        None => Err(TableError::JsonUnreadable),
    }
}

} // verus!
