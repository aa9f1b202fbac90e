//! Orders on cells and a stable sort of row positions.

use vstd::prelude::*;
use crate::datetime::{compare_moments, int_order, moment_order, DateTimeParts};

verus! {

/// Order of texts by code point, position by position, a prefix first (the
/// order of `String`): -1, 0 or 1.
pub open spec fn text_order(a: Seq<char>, b: Seq<char>) -> int
    decreases a.len(),
{
    if a.len() == 0 {
        if b.len() == 0 {
            0
        } else {
            -1
        }
    } else if b.len() == 0 {
        1
    } else if a[0] != b[0] {
        if a[0] < b[0] {
            -1
        } else {
            1
        }
    } else {
        text_order(a.drop_first(), b.drop_first())
    }
}

/// `text_order` is a total order.
pub proof fn lemma_text_order(a: Seq<char>, b: Seq<char>, c: Seq<char>)
    ensures
        text_order(a, b) == -text_order(b, a),
        text_order(a, b) == 0 <==> a == b,
        text_order(a, b) <= 0 && text_order(b, c) <= 0 ==> text_order(a, c) <= 0,
        -1 <= text_order(a, b) <= 1,
    decreases a.len(),
{
    if a.len() > 0 && b.len() > 0 && c.len() > 0 {
        lemma_text_order(a.drop_first(), b.drop_first(), c.drop_first());
        if a[0] == b[0] && text_order(a, b) == 0 {
            assert(a =~= seq![a[0]] + a.drop_first());
            assert(b =~= seq![b[0]] + b.drop_first());
        }
    } else if a.len() > 0 && b.len() > 0 {
        lemma_text_order(a.drop_first(), b.drop_first(), a.drop_first());
        if a[0] == b[0] && text_order(a, b) == 0 {
            assert(a =~= seq![a[0]] + a.drop_first());
            assert(b =~= seq![b[0]] + b.drop_first());
        }
    }
    if a.len() == 0 && b.len() == 0 {
        assert(a =~= b);
    }
    if a == b {
        lemma_text_order_refl(a);
    }
}

proof fn lemma_text_order_refl(a: Seq<char>)
    ensures
        text_order(a, a) == 0,
    decreases a.len(),
{
    if a.len() > 0 {
        lemma_text_order_refl(a.drop_first());
    }
}

/// Order of texts (see `text_order`).
pub fn compare_texts(a: &str, b: &str) -> (r: i8)
    ensures
        r as int == text_order(a@, b@),
{
    let x = crate::text::to_chars(a);
    let y = crate::text::to_chars(b);
    let mut i: usize = 0;
    assert(a@.skip(0) =~= a@);
    assert(b@.skip(0) =~= b@);
    while i < x.len() && i < y.len()
        invariant
            x@ == a@,
            y@ == b@,
            0 <= i <= x@.len(),
            i <= y@.len(),
            text_order(a@, b@) == text_order(a@.skip(i as int), b@.skip(i as int)),
        decreases x.len() - i,
    {
        assert(a@.skip(i as int).drop_first() =~= a@.skip(i + 1));
        assert(b@.skip(i as int).drop_first() =~= b@.skip(i + 1));
        if x[i] != y[i] {
            return if x[i] < y[i] {
                -1
            } else {
                1
            };
        }
        i += 1;
    }
    if x.len() == i && y.len() == i {
        0
    } else if x.len() == i {
        -1
    } else {
        1
    }
}

/// What a cell is sorted by.
pub enum SortKey {
    /// A missing cell.
    Missing,
    /// An integer cell, read as `i64` (none when it does not parse).
    Number(Option<i64>),
    /// A text cell.
    Text(String),
    /// A date-time (none when it does not parse).
    Moment(Option<DateTimeParts>),
}

/// Abstract value of a `SortKey`.
pub enum KeyView {
    Missing,
    Number(Option<int>),
    Text(Seq<char>),
    Moment(Option<DateTimeParts>),
}

impl View for SortKey {
    type V = KeyView;

    open spec fn view(&self) -> KeyView {
        match self {
            SortKey::Missing => KeyView::Missing,
            SortKey::Number(n) => KeyView::Number(
                match n {
                    Some(v) => Some(*v as int),
                    None => None,
                },
            ),
            SortKey::Text(s) => KeyView::Text(s@),
            SortKey::Moment(m) => KeyView::Moment(*m),
        }
    }
}

/// Rank of a key's kind; keys of different kinds compare by it.
pub open spec fn kind_rank(k: KeyView) -> int {
    match k {
        KeyView::Number(_) => 0,
        KeyView::Text(_) => 1,
        KeyView::Moment(_) => 2,
        KeyView::Missing => 3,
    }
}

/// Order of two keys: a missing cell after any present one; an unreadable
/// number or moment before any readable one; else by value.
pub open spec fn key_order(a: KeyView, b: KeyView) -> int {
    match (a, b) {
        (KeyView::Number(x), KeyView::Number(y)) => match (x, y) {
            (Some(p), Some(q)) => int_order(p, q),
            (None, Some(_)) => -1,
            (Some(_), None) => 1,
            (None, None) => 0,
        },
        (KeyView::Text(x), KeyView::Text(y)) => text_order(x, y),
        (KeyView::Moment(x), KeyView::Moment(y)) => match (x, y) {
            (Some(p), Some(q)) => moment_order(p, q),
            (None, Some(_)) => -1,
            (Some(_), None) => 1,
            (None, None) => 0,
        },
        _ => int_order(kind_rank(a), kind_rank(b)),
    }
}

proof fn lemma_moment_order(a: DateTimeParts, b: DateTimeParts, c: DateTimeParts)
    ensures
        moment_order(a, b) == -moment_order(b, a),
        moment_order(a, b) == 0 <==> a == b,
        moment_order(a, b) <= 0 && moment_order(b, c) <= 0 ==> moment_order(a, c) <= 0,
        -1 <= moment_order(a, b) <= 1,
{
}

/// `key_order` is a total preorder; keys of one kind compare as equal only when
/// equal.
pub proof fn lemma_key_order(a: KeyView, b: KeyView, c: KeyView)
    ensures
        key_order(a, b) == -key_order(b, a),
        key_order(a, b) <= 0 && key_order(b, c) <= 0 ==> key_order(a, c) <= 0,
        -1 <= key_order(a, b) <= 1,
        key_order(a, a) == 0,
{
    match (a, b, c) {
        (KeyView::Text(x), KeyView::Text(y), KeyView::Text(z)) => {
            lemma_text_order(x, y, z);
            lemma_text_order(x, x, x);
        },
        (KeyView::Text(x), KeyView::Text(y), _) => {
            lemma_text_order(x, y, x);
            lemma_text_order(x, x, x);
        },
        (KeyView::Text(x), _, _) => {
            lemma_text_order(x, x, x);
        },
        (KeyView::Moment(Some(x)), KeyView::Moment(Some(y)), KeyView::Moment(Some(z))) => {
            lemma_moment_order(x, y, z);
            lemma_moment_order(x, x, x);
        },
        (KeyView::Moment(Some(x)), KeyView::Moment(Some(y)), _) => {
            lemma_moment_order(x, y, x);
            lemma_moment_order(x, x, x);
        },
        (KeyView::Moment(Some(x)), _, _) => {
            lemma_moment_order(x, x, x);
        },
        _ => {},
    }
}

/// Order of two keys (see `key_order`).
pub fn compare_keys(a: &SortKey, b: &SortKey) -> (r: i8)
    ensures
        r as int == key_order(a@, b@),
{
    match (a, b) {
        (SortKey::Number(x), SortKey::Number(y)) => match (x, y) {
            (Some(p), Some(q)) => if *p < *q {
                -1
            } else if *p > *q {
                1
            } else {
                0
            },
            (None, Some(_)) => -1,
            (Some(_), None) => 1,
            (None, None) => 0,
        },
        (SortKey::Text(x), SortKey::Text(y)) => compare_texts(x.as_str(), y.as_str()),
        (SortKey::Moment(x), SortKey::Moment(y)) => match (x, y) {
            (Some(p), Some(q)) => compare_moments(p, q),
            (None, Some(_)) => -1,
            (Some(_), None) => 1,
            (None, None) => 0,
        },
        _ => {
            let ra: i8 = match a {
                SortKey::Number(_) => 0,
                SortKey::Text(_) => 1,
                SortKey::Moment(_) => 2,
                SortKey::Missing => 3,
            };
            let rb: i8 = match b {
                SortKey::Number(_) => 0,
                SortKey::Text(_) => 1,
                SortKey::Moment(_) => 2,
                SortKey::Missing => 3,
            };
            if ra < rb {
                -1
            } else if ra > rb {
                1
            } else {
                0
            }
        },
    }
}

/// The order a sort follows: `key_order`, reversed when descending.
pub open spec fn directed(o: int, ascending: bool) -> int {
    if ascending {
        o
    } else {
        -o
    }
}

/// `x` occurs in `perm`.
pub open spec fn lists(perm: Seq<usize>, x: int) -> bool {
    exists|i: int| 0 <= i < perm.len() && perm[i] == x
}

/// `perm` lists every position of `keys` once, in key order, and equal keys in
/// their original order: what a stable sort yields.
pub open spec fn sorted_stably(perm: Seq<usize>, keys: Seq<KeyView>, ascending: bool) -> bool {
    &&& perm.len() == keys.len()
    &&& forall|i: int| 0 <= i < perm.len() ==> (perm[i] as int) < keys.len()
    &&& forall|x: int| 0 <= x < keys.len() ==> #[trigger] lists(perm, x)
    &&& forall|i: int, j: int| 0 <= i < j < perm.len() ==> perm[i] != perm[j]
    &&& forall|i: int, j: int|
        0 <= i < j < perm.len() ==> directed(
            key_order(keys[perm[i] as int], keys[perm[j] as int]),
            ascending,
        ) <= 0
    &&& forall|i: int, j: int|
        0 <= i < j < perm.len() && key_order(keys[perm[i] as int], keys[perm[j] as int]) == 0
            ==> perm[i] < perm[j]
}

/// A stable sort has one outcome: two position lists that both sort `keys`
/// stably are equal.
pub proof fn lemma_sorted_stably_unique(p: Seq<usize>, q: Seq<usize>, keys: Seq<KeyView>, ascending: bool)
    requires
        sorted_stably(p, keys, ascending),
        sorted_stably(q, keys, ascending),
    ensures
        p == q,
{
    assert forall|k: int| 0 <= k < p.len() implies p[k] == q[k] by {
        lemma_sorted_stably_agree(p, q, keys, ascending, k);
    }
    assert(p =~= q);
}

proof fn lemma_sorted_stably_agree(
    p: Seq<usize>,
    q: Seq<usize>,
    keys: Seq<KeyView>,
    ascending: bool,
    k: int,
)
    requires
        sorted_stably(p, keys, ascending),
        sorted_stably(q, keys, ascending),
        0 <= k < p.len(),
    ensures
        p[k] == q[k],
    decreases k,
{
    assert forall|m: int| 0 <= m < k implies p[m] == q[m] by {
        lemma_sorted_stably_agree(p, q, keys, ascending, m);
    }
    if p[k] != q[k] {
        let x = q[k] as int;
        let y = p[k] as int;
        assert(0 <= x < keys.len());
        assert(0 <= y < keys.len());
        assert(lists(p, x));
        assert(lists(q, y));
        let i = choose|i: int| 0 <= i < p.len() && p[i] == x;
        let j = choose|j: int| 0 <= j < q.len() && q[j] == y;
        if i < k {
            assert(p[i] == q[i]);
        }
        if j < k {
            assert(q[j] == p[j]);
        }
        assert(i > k);
        assert(j > k);
        lemma_key_order(keys[y], keys[x], keys[y]);
        assert(directed(key_order(keys[p[k] as int], keys[p[i] as int]), ascending) <= 0);
        assert(directed(key_order(keys[q[k] as int], keys[q[j] as int]), ascending) <= 0);
        assert(key_order(keys[y], keys[x]) == 0);
        assert(p[k] < p[i]);
        assert(q[k] < q[j]);
    }
}

} // verus!
