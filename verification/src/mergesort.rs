//! A stable merge sort of positions by their keys.

use vstd::prelude::*;
use crate::sorting::{compare_keys, directed, key_order, lemma_key_order, lists, sorted_stably, KeyView, SortKey};
use crate::text::text_eq;

verus! {

/// `run` lists the positions `lo..hi` once each, in key order, equal keys in
/// their original order.
pub open spec fn sorted_run(run: Seq<usize>, keys: Seq<KeyView>, ascending: bool, lo: int, hi: int) -> bool {
    &&& run.len() == hi - lo
    &&& forall|i: int| 0 <= i < run.len() ==> lo <= #[trigger] run[i] < hi
    &&& forall|x: int| lo <= x < hi ==> #[trigger] lists(run, x)
    &&& forall|i: int, j: int| 0 <= i < j < run.len() ==> run[i] != run[j]
    &&& forall|i: int, j: int|
        0 <= i < j < run.len() ==> directed(key_order(keys[run[i] as int], keys[run[j] as int]), ascending)
            <= 0
    &&& forall|i: int, j: int|
        0 <= i < j < run.len() && key_order(keys[run[i] as int], keys[run[j] as int]) == 0 ==> run[i]
            < run[j]
}

proof fn lemma_directed(a: KeyView, b: KeyView, c: KeyView, ascending: bool)
    ensures
        directed(key_order(a, b), ascending) == -directed(key_order(b, a), ascending),
        directed(key_order(a, b), ascending) <= 0 && directed(key_order(b, c), ascending) <= 0
            ==> directed(key_order(a, c), ascending) <= 0,
        directed(key_order(a, b), ascending) < 0 && directed(key_order(b, c), ascending) <= 0
            ==> directed(key_order(a, c), ascending) < 0,
        directed(key_order(a, b), ascending) <= 0 && directed(key_order(b, c), ascending) < 0
            ==> directed(key_order(a, c), ascending) < 0,
        directed(key_order(a, b), ascending) == 0 <==> key_order(a, b) == 0,
{
    lemma_key_order(a, b, c);
    lemma_key_order(b, c, a);
    lemma_key_order(c, a, b);
    lemma_key_order(a, c, b);
    lemma_key_order(b, a, c);
    lemma_key_order(c, b, a);
}

/// Merges two adjacent sorted runs into one, taking from the left run on ties.
fn merge_runs(
    keys: &Vec<SortKey>,
    left: &Vec<usize>,
    right: &Vec<usize>,
    ascending: bool,
    Ghost(lo): Ghost<int>,
    Ghost(mid): Ghost<int>,
    Ghost(hi): Ghost<int>,
) -> (r: Vec<usize>)
    requires
        0 <= lo <= mid <= hi <= keys@.len(),
        sorted_run(left@, keys@.map_values(|k: SortKey| k@), ascending, lo, mid),
        sorted_run(right@, keys@.map_values(|k: SortKey| k@), ascending, mid, hi),
    ensures
        sorted_run(r@, keys@.map_values(|k: SortKey| k@), ascending, lo, hi),
{
    let ghost kv = keys@.map_values(|k: SortKey| k@);
    let ghost l = left@;
    let ghost rr = right@;
    let mut out: Vec<usize> = Vec::new();
    let mut a: usize = 0;
    let mut b: usize = 0;
    while a < left.len() || b < right.len()
        invariant
            kv == keys@.map_values(|k: SortKey| k@),
            l == left@,
            rr == right@,
            0 <= lo <= mid <= hi <= kv.len(),
            sorted_run(l, kv, ascending, lo, mid),
            sorted_run(rr, kv, ascending, mid, hi),
            0 <= a <= l.len(),
            0 <= b <= rr.len(),
            out@.len() == a + b,
            forall|k: int| 0 <= k < out@.len() ==> lo <= #[trigger] out@[k] < hi,
            forall|k: int|
                0 <= k < out@.len() ==> ((out@[k] < mid && exists|i: int| 0 <= i < a && l[i] == out@[k])
                    || (out@[k] >= mid && exists|j: int| 0 <= j < b && rr[j] == out@[k])),
            forall|i: int| 0 <= i < a ==> #[trigger] lists(out@, l[i] as int),
            forall|j: int| 0 <= j < b ==> #[trigger] lists(out@, rr[j] as int),
            forall|i: int, j: int| 0 <= i < j < out@.len() ==> out@[i] != out@[j],
            forall|i: int, j: int|
                0 <= i < j < out@.len() ==> directed(
                    key_order(kv[out@[i] as int], kv[out@[j] as int]),
                    ascending,
                ) <= 0,
            forall|i: int, j: int|
                0 <= i < j < out@.len() && key_order(kv[out@[i] as int], kv[out@[j] as int]) == 0
                    ==> out@[i] < out@[j],
            a < l.len() ==> forall|k: int|
                0 <= k < out@.len() ==> directed(key_order(kv[out@[k] as int], kv[l[a as int] as int]), ascending)
                    <= 0,
            b < rr.len() ==> forall|k: int|
                0 <= k < out@.len() ==> directed(key_order(kv[out@[k] as int], kv[rr[b as int] as int]), ascending)
                    <= 0,
            a < l.len() ==> forall|k: int|
                0 <= k < out@.len() && out@[k] >= mid ==> directed(
                    key_order(kv[out@[k] as int], kv[l[a as int] as int]),
                    ascending,
                ) < 0,
        decreases l.len() + rr.len() - a - b,
    {
        let take_left = if a < left.len() && b < right.len() {
            let o = compare_keys(&keys[left[a]], &keys[right[b]]);
            let d: i8 = if ascending {
                o
            } else if o < 0 {
                1
            } else if o > 0 {
                -1
            } else {
                0
            };
            d <= 0
        } else {
            a < left.len()
        };
        let ghost before = out@;
        if take_left {
            let x = left[a];
            out.push(x);
            proof {
                assert(out@ =~= before.push(x));
                let kx = kv[x as int];
                assert forall|i: int, j: int| 0 <= i < j < out@.len() implies directed(
                    key_order(kv[out@[i] as int], kv[out@[j] as int]),
                    ascending,
                ) <= 0 by {
                    if j == before.len() {
                        assert(out@[i] == before[i]);
                    } else {
                        assert(out@[i] == before[i] && out@[j] == before[j]);
                    }
                }
                assert forall|i: int, j: int|
                    0 <= i < j < out@.len() && key_order(kv[out@[i] as int], kv[out@[j] as int]) == 0
                        implies out@[i] < out@[j] by {
                    if j == before.len() {
                        let y = before[i];
                        if y >= mid {
                            lemma_directed(kv[y as int], kx, kx, ascending);
                        } else {
                            let i2 = choose|i2: int| 0 <= i2 < a && l[i2] == y;
                            assert(directed(key_order(kv[l[i2] as int], kv[l[a as int] as int]), ascending) <= 0);
                            if y > x {
                                lemma_directed(kv[y as int], kx, kx, ascending);
                            }
                        }
                    } else {
                        assert(out@[i] == before[i] && out@[j] == before[j]);
                    }
                }
                assert forall|i: int, j: int| 0 <= i < j < out@.len() implies out@[i] != out@[j] by {
                    if j == before.len() {
                        let y = before[i];
                        if y < mid {
                            let i2 = choose|i2: int| 0 <= i2 < a && l[i2] == y;
                            assert(l[i2] != l[a as int]);
                        }
                    } else {
                        assert(out@[i] == before[i] && out@[j] == before[j]);
                    }
                }
                assert forall|k: int|
                    0 <= k < out@.len() implies ((out@[k] < mid && exists|i: int|
                        0 <= i < a + 1 && l[i] == out@[k]) || (out@[k] >= mid && exists|j: int|
                        0 <= j < b && rr[j] == out@[k])) by {
                    if k == before.len() {
                        assert(l[a as int] == out@[k]);
                    } else {
                        assert(out@[k] == before[k]);
                        if out@[k] < mid {
                            let i2 = choose|i2: int| 0 <= i2 < a && l[i2] == out@[k];
                            assert(0 <= i2 < a + 1 && l[i2] == out@[k]);
                        }
                    }
                }
                assert forall|i: int| 0 <= i < a + 1 implies #[trigger] lists(out@, l[i] as int) by {
                    if i == a {
                        assert(out@[before.len() as int] == l[i]);
                    } else {
                        assert(lists(before, l[i] as int));
                        assert(lists(before, l[i] as int));
                    let k = choose|k: int| 0 <= k < before.len() && before[k] == l[i];
                        assert(out@[k] == l[i]);
                    }
                }
                assert forall|j: int| 0 <= j < b implies #[trigger] lists(out@, rr[j] as int) by {
                    assert(lists(before, rr[j] as int));
                    let k = choose|k: int| 0 <= k < before.len() && before[k] == rr[j];
                    assert(out@[k] == rr[j]);
                }
                if a + 1 < l.len() {
                    let kn = kv[l[a + 1] as int];
                    assert(directed(key_order(kx, kn), ascending) <= 0);
                    assert forall|k: int| 0 <= k < out@.len() implies directed(
                        key_order(kv[out@[k] as int], kn),
                        ascending,
                    ) <= 0 by {
                        lemma_directed(kv[out@[k] as int], kx, kn, ascending);
                        if k < before.len() {
                            assert(out@[k] == before[k]);
                        }
                    }
                    assert forall|k: int| 0 <= k < out@.len() && out@[k] >= mid implies directed(
                        key_order(kv[out@[k] as int], kn),
                        ascending,
                    ) < 0 by {
                        assert(k < before.len());
                        assert(out@[k] == before[k]);
                        lemma_directed(kv[out@[k] as int], kx, kn, ascending);
                    }
                }
                if b < rr.len() {
                    let kb = kv[rr[b as int] as int];
                    assert forall|k: int| 0 <= k < out@.len() implies directed(
                        key_order(kv[out@[k] as int], kb),
                        ascending,
                    ) <= 0 by {
                        if k < before.len() {
                            assert(out@[k] == before[k]);
                        } else {
                            assert(a < l.len());
                        }
                    }
                }
            }
            a += 1;
        } else {
            let x = right[b];
            out.push(x);
            proof {
                assert(out@ =~= before.push(x));
                let kx = kv[x as int];
                if a < l.len() {
                    lemma_directed(kv[l[a as int] as int], kx, kx, ascending);
                    assert(directed(key_order(kx, kv[l[a as int] as int]), ascending) < 0);
                }
                assert forall|i: int, j: int| 0 <= i < j < out@.len() implies directed(
                    key_order(kv[out@[i] as int], kv[out@[j] as int]),
                    ascending,
                ) <= 0 by {
                    if j == before.len() {
                        assert(out@[i] == before[i]);
                    } else {
                        assert(out@[i] == before[i] && out@[j] == before[j]);
                    }
                }
                assert forall|i: int, j: int|
                    0 <= i < j < out@.len() && key_order(kv[out@[i] as int], kv[out@[j] as int]) == 0
                        implies out@[i] < out@[j] by {
                    if j == before.len() {
                        let y = before[i];
                        if y >= mid {
                            let j2 = choose|j2: int| 0 <= j2 < b && rr[j2] == y;
                            assert(directed(key_order(kv[rr[j2] as int], kv[rr[b as int] as int]), ascending) <= 0);
                            if y > x {
                                lemma_directed(kv[y as int], kx, kx, ascending);
                            }
                        }
                    } else {
                        assert(out@[i] == before[i] && out@[j] == before[j]);
                    }
                }
                assert forall|i: int, j: int| 0 <= i < j < out@.len() implies out@[i] != out@[j] by {
                    if j == before.len() {
                        let y = before[i];
                        if y >= mid {
                            let j2 = choose|j2: int| 0 <= j2 < b && rr[j2] == y;
                            assert(rr[j2] != rr[b as int]);
                        }
                    } else {
                        assert(out@[i] == before[i] && out@[j] == before[j]);
                    }
                }
                assert forall|k: int|
                    0 <= k < out@.len() implies ((out@[k] < mid && exists|i: int| 0 <= i < a && l[i] == out@[k])
                        || (out@[k] >= mid && exists|j: int| 0 <= j < b + 1 && rr[j] == out@[k])) by {
                    if k == before.len() {
                        assert(rr[b as int] == out@[k]);
                    } else {
                        assert(out@[k] == before[k]);
                        if out@[k] >= mid {
                            let j2 = choose|j2: int| 0 <= j2 < b && rr[j2] == out@[k];
                            assert(0 <= j2 < b + 1 && rr[j2] == out@[k]);
                        }
                    }
                }
                assert forall|j: int| 0 <= j < b + 1 implies #[trigger] lists(out@, rr[j] as int) by {
                    if j == b {
                        assert(out@[before.len() as int] == rr[j]);
                    } else {
                        assert(lists(before, rr[j] as int));
                        assert(lists(before, rr[j] as int));
                    let k = choose|k: int| 0 <= k < before.len() && before[k] == rr[j];
                        assert(out@[k] == rr[j]);
                    }
                }
                assert forall|i: int| 0 <= i < a implies #[trigger] lists(out@, l[i] as int) by {
                    assert(lists(before, l[i] as int));
                    let k = choose|k: int| 0 <= k < before.len() && before[k] == l[i];
                    assert(out@[k] == l[i]);
                }
                if b + 1 < rr.len() {
                    let kn = kv[rr[b + 1] as int];
                    assert(directed(key_order(kx, kn), ascending) <= 0);
                    assert forall|k: int| 0 <= k < out@.len() implies directed(
                        key_order(kv[out@[k] as int], kn),
                        ascending,
                    ) <= 0 by {
                        lemma_directed(kv[out@[k] as int], kx, kn, ascending);
                        if k < before.len() {
                            assert(out@[k] == before[k]);
                        }
                    }
                }
                if a < l.len() {
                    let ka = kv[l[a as int] as int];
                    assert forall|k: int| 0 <= k < out@.len() implies directed(
                        key_order(kv[out@[k] as int], ka),
                        ascending,
                    ) <= 0 by {
                        if k < before.len() {
                            assert(out@[k] == before[k]);
                        }
                    }
                    assert forall|k: int| 0 <= k < out@.len() && out@[k] >= mid implies directed(
                        key_order(kv[out@[k] as int], ka),
                        ascending,
                    ) < 0 by {
                        if k < before.len() {
                            assert(out@[k] == before[k]);
                        }
                    }
                }
            }
            b += 1;
        }
    }
    proof {
        assert forall|x: int| lo <= x < hi implies #[trigger] lists(out@, x) by {
            if x < mid {
                assert(lists(l, x));
                let i = choose|i: int| 0 <= i < l.len() && l[i] == x;
                assert(lists(out@, l[i] as int));
            } else {
                assert(lists(rr, x));
                let j = choose|j: int| 0 <= j < rr.len() && rr[j] == x;
                assert(lists(out@, rr[j] as int));
            }
        }
    }
    out
}

/// The positions `lo..hi` in stable key order.
fn sort_range(keys: &Vec<SortKey>, lo: usize, hi: usize, ascending: bool) -> (r: Vec<usize>)
    requires
        lo <= hi <= keys@.len(),
    ensures
        sorted_run(r@, keys@.map_values(|k: SortKey| k@), ascending, lo as int, hi as int),
    decreases hi - lo,
{
    if hi - lo <= 1 {
        let mut v: Vec<usize> = Vec::new();
        if hi > lo {
            v.push(lo);
            assert(v@[0] == lo);
            assert(lists(v@, lo as int));
        }
        return v;
    }
    let mid = lo + (hi - lo) / 2;
    let left = sort_range(keys, lo, mid, ascending);
    let right = sort_range(keys, mid, hi, ascending);
    merge_runs(keys, &left, &right, ascending, Ghost(lo as int), Ghost(mid as int), Ghost(hi as int))
}

/// Positions of `keys` in stable sorted order (merge sort).
pub fn stable_sort_positions(keys: &Vec<SortKey>, ascending: bool) -> (r: Vec<usize>)
    ensures
        sorted_stably(r@, keys@.map_values(|k: SortKey| k@), ascending),
{
    let r = sort_range(keys, 0, keys.len(), ascending);
    r
}

} // verus!

verus! {

/// No earlier position holds the same text.
pub open spec fn first_of_text(keys: Seq<Seq<char>>, i: int) -> bool {
    forall|j: int| 0 <= j < i ==> keys[j] != keys[i]
}

/// For each position, whether its text appears there for the first time
/// (found by sorting the positions by text, stably).
pub fn first_occurrence_flags(keys: &Vec<String>) -> (r: Vec<bool>)
    ensures
        r@.len() == keys@.len(),
        forall|i: int| 0 <= i < keys@.len() ==> r@[i] == first_of_text(keys.deep_view(), i),
{
    let ghost ks = keys.deep_view();
    let mut sk: Vec<SortKey> = Vec::new();
    let mut i: usize = 0;
    while i < keys.len()
        invariant
            0 <= i <= keys@.len(),
            ks == keys.deep_view(),
            sk@.len() == i,
            forall|k: int| 0 <= k < i ==> #[trigger] sk@[k]@ == KeyView::Text(ks[k]),
        decreases keys.len() - i,
    {
        sk.push(SortKey::Text(keys[i].clone()));
        i += 1;
    }
    let ghost kv = sk@.map_values(|k: SortKey| k@);
    assert forall|k: int| 0 <= k < kv.len() implies kv[k] == KeyView::Text(ks[k]) by {
        assert(sk@[k]@ == KeyView::Text(ks[k]));
    }
    let perm = stable_sort_positions(&sk, true);
    let n = keys.len();
    let mut flags: Vec<bool> = Vec::new();
    let mut z: usize = 0;
    while z < n
        invariant
            0 <= z <= n,
            n == keys@.len(),
            flags@.len() == z,
        decreases n - z,
    {
        flags.push(false);
        z += 1;
    }
    let mut k: usize = 0;
    while k < n
        invariant
            0 <= k <= n,
            n == keys@.len(),
            ks == keys.deep_view(),
            kv == sk@.map_values(|k: SortKey| k@),
            kv.len() == n,
            ks.len() == n,
            forall|x: int| 0 <= x < kv.len() ==> kv[x] == KeyView::Text(ks[x]),
            sorted_stably(perm@, kv, true),
            flags@.len() == n,
            forall|m: int| 0 <= m < k ==> flags@[perm@[m] as int] == first_of_text(ks, perm@[m] as int),
        decreases n - k,
    {
        let p = perm[k];
        let f = if k == 0 {
            true
        } else {
            !text_eq(keys[perm[k - 1]].as_str(), keys[p].as_str())
        };
        proof {
            lemma_flag_is_first(ks, kv, perm@, k as int);
        }
        let ghost before = flags@;
        flags.set(p, f);
        assert forall|m: int| 0 <= m < k + 1 implies flags@[perm@[m] as int] == first_of_text(
            ks,
            perm@[m] as int,
        ) by {
            if m < k {
                assert(perm@[m] != perm@[k as int]);
            }
        }
        k += 1;
    }
    proof {
        assert forall|x: int| 0 <= x < n implies flags@[x] == first_of_text(ks, x) by {
            assert(lists(perm@, x));
            let m = choose|m: int| 0 <= m < perm@.len() && perm@[m] == x;
        }
    }
    flags
}

/// In a stable sort by text, a position holds the first occurrence of its text
/// exactly when the position sorted before it holds a different text.
proof fn lemma_flag_is_first(ks: Seq<Seq<char>>, kv: Seq<KeyView>, perm: Seq<usize>, k: int)
    requires
        kv.len() == ks.len(),
        forall|x: int| 0 <= x < kv.len() ==> kv[x] == KeyView::Text(ks[x]),
        sorted_stably(perm, kv, true),
        0 <= k < perm.len(),
    ensures
        first_of_text(ks, perm[k] as int) == (k == 0 || ks[perm[k - 1] as int] != ks[perm[k] as int]),
{
    let p = perm[k] as int;
    if k > 0 && ks[perm[k - 1] as int] == ks[p] {
        let q = perm[k - 1] as int;
        crate::sorting::lemma_text_order(ks[q], ks[p], ks[q]);
        assert(key_order(kv[q], kv[p]) == 0);
        assert(perm[k - 1] < perm[k]);
        assert(!first_of_text(ks, p));
    }
    if !first_of_text(ks, p) {
        let j = choose|j: int| 0 <= j < p && ks[j] == ks[p];
        assert(lists(perm, j));
        let kj = choose|kj: int| 0 <= kj < perm.len() && perm[kj] == j;
        crate::sorting::lemma_text_order(ks[j], ks[p], ks[j]);
        if kj > k {
            assert(key_order(kv[perm[k] as int], kv[perm[kj] as int]) == 0);
            assert(perm[k] < perm[kj]);
        }
        assert(kj < k);
        let q = perm[k - 1] as int;
        assert(directed(key_order(kv[perm[kj] as int], kv[q]), true) <= 0 || kj == k - 1);
        assert(directed(key_order(kv[q], kv[p]), true) <= 0);
        crate::sorting::lemma_text_order(ks[j], ks[q], ks[p]);
        crate::sorting::lemma_text_order(ks[q], ks[p], ks[j]);
        crate::sorting::lemma_text_order(ks[p], ks[q], ks[j]);
        assert(ks[q] == ks[p]);
    }
}

} // verus!
