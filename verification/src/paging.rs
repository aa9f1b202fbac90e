//! Pages of rows: page counts, clamping, windows, and a scattered sample of
//! positions per page.

use vstd::prelude::*;

verus! {

/// A page size of zero counts as one.
pub open spec fn effective_size(page_size: int) -> int {
    if page_size < 1 {
        1
    } else {
        page_size
    }
}

/// Number of pages: at least one, else the item count divided by the page
/// size, rounded up.
pub open spec fn page_count(total_items: int, page_size: int) -> int {
    if total_items == 0 {
        1
    } else {
        (total_items + effective_size(page_size) - 1) / effective_size(page_size)
    }
}

/// A page number between 1 and the page count.
pub open spec fn clamped_page(page: int, total_pages: int) -> int {
    let low = if page < 1 {
        1
    } else {
        page
    };
    let high = if total_pages < 1 {
        1
    } else {
        total_pages
    };
    if low < high {
        low
    } else {
        high
    }
}

/// Number of pages for `total_items` items (see `page_count`).
pub fn total_pages(total_items: usize, page_size: usize) -> (r: usize)
    ensures
        r as int == page_count(total_items as int, page_size as int),
{
    if total_items == 0 {
        return 1;
    }
    let s: usize = if page_size == 0 { 1 } else { page_size };
    let r = (total_items - 1) / s + 1;
    assert((total_items - 1) / (s as int) + 1 == (total_items + s - 1) / (s as int)) by (nonlinear_arith)
        requires
            s >= 1,
            total_items >= 1,
    {
        assert((total_items + s - 1) == (total_items - 1) + s * 1);
        assert(((total_items - 1) + s * 1) / (s as int) == (total_items - 1) / (s as int) + 1);
    }
    assert((total_items - 1) / (s as int) <= total_items - 1) by (nonlinear_arith)
        requires
            s >= 1,
            total_items >= 1,
    ;
    r
}

/// The page clamped into `1..=max(total_pages, 1)`.
pub fn clamp_page(page: usize, total_pages: usize) -> (r: usize)
    ensures
        r as int == clamped_page(page as int, total_pages as int),
{
    let low = if page < 1 { 1 } else { page };
    let high = if total_pages < 1 { 1 } else { total_pages };
    if low < high {
        low
    } else {
        high
    }
}

/// The page shown and the item range `start..end` it covers.
pub open spec fn window_of(total_items: int, page: int, page_size: int) -> (int, int, int) {
    let s = effective_size(page_size);
    let p = clamped_page(page, page_count(total_items, s));
    let start = if (p - 1) * s < total_items {
        (p - 1) * s
    } else {
        total_items
    };
    let end = if start + s < total_items {
        start + s
    } else {
        total_items
    };
    (p, start, end)
}

proof fn lemma_window_bounds(total_items: int, page: int, page_size: int)
    requires
        total_items >= 0,
    ensures
        ({
            let s = effective_size(page_size);
            let p = clamped_page(page, page_count(total_items, s));
            1 <= p && (p - 1) * s <= total_items
        }),
{
    let s = effective_size(page_size);
    let tp = page_count(total_items, s);
    let p = clamped_page(page, tp);
    if total_items > 0 {
        assert((total_items + s - 1) / s >= 1) by (nonlinear_arith)
            requires
                s >= 1,
                total_items >= 1,
        ;
        assert((total_items + s - 1) / s * s <= total_items + s - 1) by (nonlinear_arith)
            requires
                s >= 1,
                total_items >= 1,
        ;
        assert((tp - 1) * s <= total_items) by (nonlinear_arith)
            requires
                s >= 1,
                tp * s <= total_items + s - 1,
        ;
        assert((p - 1) * s <= (tp - 1) * s) by (nonlinear_arith)
            requires
                s >= 1,
                1 <= p <= tp,
        ;
    }
}

/// The page shown and the item range it covers (see `window_of`).
pub fn page_window(total_items: usize, page: usize, page_size: usize) -> (r: (usize, usize, usize))
    ensures
        (r.0 as int, r.1 as int, r.2 as int) == window_of(
            total_items as int,
            page as int,
            page_size as int,
        ),
{
    let s: usize = if page_size == 0 { 1 } else { page_size };
    let tp = total_pages(total_items, s);
    let p = clamp_page(page, tp);
    proof {
        lemma_window_bounds(total_items as int, page as int, page_size as int);
    }
    let offset: usize = (p - 1) * s;
    let start = if offset < total_items { offset } else { total_items };
    let end = if total_items - start > s { start + s } else { total_items };
    (p, start, end)
}

/// Consecutive pages cover consecutive item ranges, from the first item to the
/// last, without gap or overlap.
pub proof fn lemma_windows_tile(total_items: int, page_size: int, p: int)
    requires
        total_items >= 0,
        1 <= p < page_count(total_items, page_size),
    ensures
        window_of(total_items, p, page_size).2 == window_of(total_items, p + 1, page_size).1,
        window_of(total_items, 1, page_size).1 == 0,
        window_of(total_items, page_count(total_items, page_size), page_size).2 == total_items,
{
    let s = effective_size(page_size);
    let tp = page_count(total_items, s);
    assert(page_count(total_items, page_size) == tp);
    lemma_window_bounds(total_items, p + 1, page_size);
    lemma_window_bounds(total_items, tp, page_size);
    lemma_window_bounds(total_items, 1, page_size);
    assert(p * s == (p - 1) * s + s) by (nonlinear_arith);
    assert((1 - 1) * s == 0);
    if total_items > 0 {
        assert(tp * s >= total_items) by (nonlinear_arith)
            requires
                s >= 1,
                total_items >= 1,
                tp == (total_items + s - 1) / s,
        ;
        assert(tp * s == (tp - 1) * s + s) by (nonlinear_arith);
    }
}

/// Greatest common divisor (Euclid).
pub open spec fn gcd(a: nat, b: nat) -> nat
    decreases b,
{
    if b == 0 {
        a
    } else {
        gcd(b, a % b)
    }
}

/// Greatest common divisor of two sizes.
pub fn greatest_common_divisor(left: usize, right: usize) -> (r: usize)
    ensures
        r as nat == gcd(left as nat, right as nat),
{
    let mut a = left;
    let mut b = right;
    while b != 0
        invariant
            gcd(a as nat, b as nat) == gcd(left as nat, right as nat),
        decreases b,
    {
        let rem = a % b;
        a = b;
        b = rem;
    }
    a
}

/// The seed of a page's sample.
pub open spec fn sample_seed(page: int, total_rows: int) -> u64 {
    ((page as u64) << 32u64) ^ (total_rows as u64) ^ 0x9E37_79B9_7F4A_7C15u64
}

/// `x` rotated left by 17 bits.
pub open spec fn rotl17(x: u64) -> u64 {
    (x << 17u64) | (x >> 47u64)
}

/// First step size tried: the rotated seed modulo `total_rows - 1`, at least 1.
pub open spec fn first_step(seed: u64, total_rows: int) -> int {
    if total_rows <= 1 {
        1
    } else {
        let v = ((rotl17(seed) as usize) as int) % (total_rows - 1);
        if v < 1 {
            1
        } else {
            v
        }
    }
}

/// The step: the first value from `from` up that is coprime with `total_rows`,
/// or `max(total_rows - 1, 1)` when none is below `total_rows`.
pub open spec fn coprime_step(from: int, total_rows: int) -> int
    decreases total_rows - from,
{
    if from >= total_rows {
        if total_rows - 1 < 1 {
            1
        } else {
            total_rows - 1
        }
    } else if from >= 1 && gcd(from as nat, total_rows as nat) == 1 {
        from
    } else {
        coprime_step(from + 1, total_rows)
    }
}

/// Row positions sampled for a page: the page's positions `offset..` (at most
/// `page_size`, below `total_rows`), each sent to
/// `(start + position * step) % total_rows`.
pub open spec fn sampled_positions(total_rows: int, page: int, page_size: int) -> Seq<usize> {
    if total_rows == 0 {
        Seq::empty()
    } else {
        let s = effective_size(page_size);
        let p = clamped_page(page, page_count(total_rows, s));
        let offset = (p - 1) * s;
        let seed = sample_seed(p, total_rows);
        let start = ((seed as usize) as int) % total_rows;
        let step = coprime_step(first_step(seed, total_rows), total_rows);
        let count = if total_rows - offset < s {
            total_rows - offset
        } else {
            s
        };
        Seq::new(count as nat, |k: int| ((start + (offset + k) * step) % total_rows) as usize)
    }
}

/// `m * k`, named so that it can trigger.
pub open spec fn scaled(m: int, k: int) -> int {
    m * k
}

/// `u` is a multiple of `m`.
pub open spec fn divides(m: int, u: int) -> bool {
    exists|k: int| #[trigger] scaled(m, k) == u
}

/// A number that divides `a * x` and `b * x` divides `gcd(a, b) * x`.
proof fn lemma_gcd_divides(a: nat, b: nat, m: int, x: int)
    requires
        m > 0,
        divides(m, a * x),
        divides(m, b * x),
    ensures
        divides(m, gcd(a, b) * x),
    decreases b,
{
    if b > 0 {
        let q = (a / b) as int;
        let r = (a % b) as int;
        vstd::arithmetic::div_mod::lemma_fundamental_div_mod(a as int, b as int);
        let k1 = choose|k: int| scaled(m, k) == a * x;
        let k2 = choose|k: int| scaled(m, k) == b * x;
        let w = k1 - q * k2;
        assert(scaled(m, w) == r * x) by (nonlinear_arith)
            requires
                m * k1 == a * x,
                m * k2 == b * x,
                a == b * q + r,
                w == k1 - q * k2,
        ;
        lemma_gcd_divides(b, (a % b) as nat, m, x);
    }
}

/// `n - 1` and `n` have no common divisor above one.
proof fn lemma_gcd_predecessor(n: nat)
    requires
        n >= 2,
    ensures
        gcd((n - 1) as nat, n) == 1,
{
    let p = (n - 1) as nat;
    vstd::arithmetic::div_mod::lemma_small_mod(p, n);
    assert(gcd(p, n) == gcd(n, p));
    vstd::arithmetic::div_mod::lemma_mod_multiples_vanish(1, 1, p as int);
    if p >= 2 {
        vstd::arithmetic::div_mod::lemma_small_mod(1, p);
        assert(n % p == 1);
        assert(gcd(n, p) == gcd(p, 1));
        assert(p % 1 == 0);
        assert(gcd(p, 1) == gcd(1, 0));
    } else {
        assert(gcd(n, p) == gcd(1, 0));
    }
}

/// The step a sample uses shares no divisor above one with the row count.
proof fn lemma_coprime_step(from: int, total_rows: int)
    requires
        from >= 1,
        total_rows >= 1,
    ensures
        gcd(coprime_step(from, total_rows) as nat, total_rows as nat) == 1,
        coprime_step(from, total_rows) >= 1,
    decreases total_rows - from,
{
    if from >= total_rows {
        if total_rows - 1 < 1 {
            assert(gcd(1, 1) == gcd(1, 0));
        } else {
            lemma_gcd_predecessor(total_rows as nat);
        }
    } else if !(gcd(from as nat, total_rows as nat) == 1) {
        lemma_coprime_step(from + 1, total_rows);
    }
}

/// Every sample page lists distinct rows: the positions of a page are sent
/// to `start + position * step` modulo the row count, with a step that shares
/// no divisor with the row count, and no two positions of a page differ by a
/// multiple of it.
pub proof fn lemma_sample_page_distinct(total_rows: int, page: int, page_size: int, i: int, j: int)
    requires
        0 <= total_rows <= usize::MAX,
        0 <= i < j < sampled_positions(total_rows, page, page_size).len(),
    ensures
        sampled_positions(total_rows, page, page_size)[i] != sampled_positions(total_rows, page, page_size)[j],
{
    let n = total_rows;
    let s = effective_size(page_size);
    let p = clamped_page(page, page_count(n, s));
    let offset = (p - 1) * s;
    let seed = sample_seed(p, n);
    let start = ((seed as usize) as int) % n;
    let step = coprime_step(first_step(seed, n), n);
    lemma_window_bounds(n, page, page_size);
    lemma_coprime_step(first_step(seed, n), n);
    let a = start + (offset + i) * step;
    let b = start + (offset + j) * step;
    let count = if n - offset < s { n - offset } else { s };
    assert(0 <= offset + i && offset + j < n);
    assert(0 <= a % n < n && 0 <= b % n < n) by {
        vstd::arithmetic::div_mod::lemma_mod_pos_bound(a, n);
        vstd::arithmetic::div_mod::lemma_mod_pos_bound(b, n);
    }
    assert(sampled_positions(total_rows, page, page_size)[i] == (a % n) as usize);
    assert(sampled_positions(total_rows, page, page_size)[j] == (b % n) as usize);
    if a % n == b % n {
        vstd::arithmetic::div_mod::lemma_fundamental_div_mod(a, n);
        vstd::arithmetic::div_mod::lemma_fundamental_div_mod(b, n);
        let d = j - i;
        let w = b / n - a / n;
        assert(scaled(n, w) == (step as nat) * d) by (nonlinear_arith)
            requires
                a == n * (a / n) + a % n,
                b == n * (b / n) + b % n,
                a % n == b % n,
                a == start + (offset + i) * step,
                b == start + (offset + j) * step,
                w == b / n - a / n,
                d == j - i,
                step >= 1,
        ;
        assert(scaled(n, d) == (n as nat) * d);
        lemma_gcd_divides(step as nat, n as nat, n, d);
        assert(gcd(step as nat, n as nat) * d == d);
        let k = choose|k: int| scaled(n, k) == d;
        assert(false) by (nonlinear_arith)
            requires
                n * k == d,
                0 < d < n,
        ;
    }
}

/// Scattered row positions for a sample page (see `sampled_positions`).
pub fn pseudo_random_row_indexes(total_rows: usize, page: usize, page_size: usize) -> (r: Vec<
    usize,
>)
    ensures
        r@ == sampled_positions(total_rows as int, page as int, page_size as int),
        forall|k: int| 0 <= k < r@.len() ==> (r@[k] as int) < total_rows,
        forall|a: int, b: int| 0 <= a < b < r@.len() ==> r@[a] != r@[b],
{
    if total_rows == 0 {
        return Vec::new();
    }
    let s: usize = if page_size == 0 { 1 } else { page_size };
    let tp = total_pages(total_rows, s);
    let p = clamp_page(page, tp);
    proof {
        lemma_window_bounds(total_rows as int, page as int, page_size as int);
    }
    let offset: usize = (p - 1) * s;
    let seed: u64 = ((p as u64) << 32u64) ^ (total_rows as u64) ^ 0x9E37_79B9_7F4A_7C15u64;
    let start: usize = (seed as usize) % total_rows;
    let mut step: usize = if total_rows <= 1 {
        1
    } else {
        let rotated: u64 = (seed << 17u64) | (seed >> 47u64);
        let v = (rotated as usize) % (total_rows - 1);
        if v < 1 { 1 } else { v }
    };
    assert(step as int == first_step(seed, total_rows as int));
    let ghost from = step as int;
    while step < total_rows && greatest_common_divisor(step, total_rows) != 1
        invariant
            1 <= step,
            coprime_step(from, total_rows as int) == coprime_step(step as int, total_rows as int),
        decreases total_rows - step,
    {
        step += 1;
    }
    if step >= total_rows {
        step = if total_rows - 1 < 1 { 1 } else { total_rows - 1 };
    }
    assert(step as int == coprime_step(from, total_rows as int));
    let count: usize = if total_rows - offset < s { total_rows - offset } else { s };
    let mut out: Vec<usize> = Vec::new();
    let mut k: usize = 0;
    while k < count
        invariant
            count <= total_rows - offset,
            offset <= total_rows,
            start < total_rows,
            0 <= k <= count,
            out@ =~= Seq::new(
                k as nat,
                |m: int| ((start + (offset + m) * step) % (total_rows as int)) as usize,
            ),
            forall|m: int| 0 <= m < out@.len() ==> (out@[m] as int) < total_rows,
        decreases count - k,
    {
        let position: u128 = (offset as u128) + (k as u128);
        assert(position * (step as u128) <= 0xffff_ffff_ffff_fffe_0000_0000_0000_0001u128) by (nonlinear_arith)
            requires
                position <= 0xffff_ffff_ffff_ffffu128,
                step <= 0xffff_ffff_ffff_ffffu128,
        ;
        let product: u128 = position * (step as u128);
        let value: u128 = ((start as u128) + product) % (total_rows as u128);
        assert(value < total_rows);
        out.push(value as usize);
        k += 1;
    }
    proof {
        assert forall|a: int, b: int| 0 <= a < b < out@.len() implies out@[a] != out@[b] by {
            lemma_sample_page_distinct(total_rows as int, page as int, page_size as int, a, b);
        }
    }
    out
}

} // verus!
