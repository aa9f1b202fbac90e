//! Human-readable file sizes and durations. The texts show a size or a
//! duration read as a binary64 number and printed with a fixed number of
//! decimals; the rounding both steps make (to the nearest binary64 value, and
//! to the nearest printed decimal, ties to even in both) is computed exactly
//! in integers here.

use vstd::prelude::*;
use crate::number::{decimal_spec, digit_char, u64_to_text};
use crate::text::concat;

verus! {

/// 2 to the power `e`.
pub open spec fn two_to(e: nat) -> nat
    decreases e,
{
    if e == 0 {
        1
    } else {
        2 * two_to((e - 1) as nat)
    }
}

proof fn lemma_two_to_pos(e: nat)
    ensures
        two_to(e) >= 1,
    decreases e,
{
    if e > 0 {
        lemma_two_to_pos((e - 1) as nat);
    }
}

/// `num / den` rounded to the nearest integer, a tie going to the even one.
pub open spec fn round_half_even(num: nat, den: nat) -> nat {
    let q = num / den;
    let r = num % den;
    if 2 * r > den || (2 * r == den && q % 2 == 1) {
        q + 1
    } else {
        q
    }
}

/// The least `s >= from` (at most 11) with `n < 2^(53 + s)`: how many low
/// bits of `n` a 53-bit significand cannot hold, for `n` below 2^64.
pub open spec fn excess_bits_from(n: nat, from: nat) -> nat
    decreases 11 - from,
{
    if from >= 11 || n < two_to(53 + from) {
        from
    } else {
        excess_bits_from(n, from + 1)
    }
}

/// The binary64 number nearest to `n` (ties to even), as `n as f64` gives it
/// for `n` below 2^64.
pub open spec fn nearest_binary64(n: nat) -> nat {
    let s = excess_bits_from(n, 0);
    round_half_even(n, two_to(s)) * two_to(s)
}

/// The least `t >= from` (at most 64) with `num * 2^t >= 2^52 * den`: the
/// scale at which `num / den` has a 53-bit integer part.
pub open spec fn significand_shift_from(num: nat, den: nat, from: nat) -> nat
    decreases 64 - from,
{
    if from >= 64 || num * two_to(from) >= two_to(52) * den {
        from
    } else {
        significand_shift_from(num, den, from + 1)
    }
}

/// `num / den` as `num as f64 / den as f64` computes it (the binary64 number
/// nearest to the quotient, ties to even), then rounded to a multiple of
/// `1 / scale` with ties to even, counted in units of `1 / scale`; for
/// quotients of at least 2^-12.
pub open spec fn ratio_in_units(num: nat, den: nat, scale: nat) -> nat {
    let t = significand_shift_from(num, den, 0);
    round_half_even(round_half_even(num * two_to(t), den) * scale, two_to(t))
}

/// `h` hundredths printed with two decimals.
pub open spec fn hundredths_text(h: nat) -> Seq<char> {
    decimal_spec(h / 100) + seq!['.', digit_char(((h / 10) % 10) as int), digit_char((h % 10) as int)]
}

/// `h` tenths printed with one decimal.
pub open spec fn tenths_text(h: nat) -> Seq<char> {
    decimal_spec(h / 10) + seq!['.', digit_char((h % 10) as int)]
}

/// The unit a size is shown in: the largest of B, KB, MB and GB (powers of
/// 1024) not above it.
pub open spec fn size_unit(bytes: nat) -> nat {
    if bytes >= 1073741824 {
        3
    } else if bytes >= 1048576 {
        2
    } else if bytes >= 1024 {
        1
    } else {
        0
    }
}

/// The number of bytes in a unit.
pub open spec fn unit_bytes(k: nat) -> nat {
    if k == 1 {
        1024
    } else if k == 2 {
        1048576
    } else {
        1073741824
    }
}

/// The name of a unit.
pub open spec fn unit_name(k: nat) -> Seq<char> {
    if k == 1 {
        "KB"@
    } else if k == 2 {
        "MB"@
    } else {
        "GB"@
    }
}

/// A size as text: whole bytes as "n B"; larger sizes in their unit with two
/// decimals, the byte count read as binary64 first.
pub open spec fn size_text(bytes: nat) -> Seq<char> {
    let k = size_unit(bytes);
    if k == 0 {
        decimal_spec(bytes) + " B"@
    } else {
        hundredths_text(round_half_even(nearest_binary64(bytes) * 100, unit_bytes(k))) + " "@ + unit_name(k)
    }
}

/// A duration as text: "-" when unknown, whole milliseconds below a second,
/// seconds with two decimals below a minute, else whole minutes and the rest
/// in seconds with one decimal.
pub open spec fn duration_text(duration_ms: Option<u64>) -> Seq<char> {
    match duration_ms {
        None => "耗时 -"@,
        Some(d) => if d < 1000 {
            "耗时 "@ + decimal_spec(d as nat) + " ms"@
        } else if d < 60000 {
            "耗时 "@ + hundredths_text(ratio_in_units(d as nat, 1000, 100)) + " s"@
        } else {
            "耗时 "@ + decimal_spec((d / 60000) as nat) + " min "@ + tenths_text(
                ratio_in_units((d % 60000) as nat, 1000, 10),
            ) + " s"@
        },
    }
}

fn round_half_even_exec(num: u128, den: u128) -> (r: u128)
    requires
        0 < den,
        num <= 0x1_0000_0000_0000_0000_0000,
    ensures
        r == round_half_even(num as nat, den as nat),
        r <= num / den + 1,
        r <= num + 1,
{
    let q = num / den;
    let rem = num % den;
    proof {
        vstd::arithmetic::div_mod::lemma_div_is_ordered_by_denominator(num as int, 1, den as int);
    }
    if rem > den - rem || (rem == den - rem && q % 2 == 1) {
        q + 1
    } else {
        q
    }
}

/// `n as f64`, as an integer (see `nearest_binary64`).
fn nearest_binary64_exec(n: u64) -> (r: u128)
    ensures
        r == nearest_binary64(n as nat),
        r <= 0x1_0000_0000_0000_0000 + 2048,
{
    let mut s: u32 = 0;
    let mut p: u128 = 1;
    let mut lim: u128 = 9007199254740992;
    assert(two_to(53) == 9007199254740992) by {
        reveal_with_fuel(two_to, 54);
    }
    while s < 11 && (n as u128) >= lim
        invariant
            s <= 11,
            p == two_to(s as nat),
            1 <= p <= 2048,
            lim == two_to((53 + s) as nat),
            lim == p * 9007199254740992,
            excess_bits_from(n as nat, 0) == excess_bits_from(n as nat, s as nat),
        decreases 11 - s,
    {
        assert(two_to((s + 1) as nat) == 2 * two_to(s as nat));
        assert(two_to((53 + s + 1) as nat) == 2 * two_to((53 + s) as nat));
        s = s + 1;
        p = p * 2;
        lim = lim * 2;
        proof {
            assert(s <= 11);
            assert(p <= 2048) by {
                assert(two_to(11) == 2048) by {
                    reveal_with_fuel(two_to, 12);
                }
                lemma_two_to_monotone(s as nat, 11);
            }
        }
    }
    let q = round_half_even_exec(n as u128, p);
    proof {
        let nn = n as int;
        let pp = p as int;
        let d = nn / pp;
        vstd::arithmetic::div_mod::lemma_fundamental_div_mod(nn, pp);
        vstd::arithmetic::div_mod::lemma_mod_pos_bound(nn, pp);
        assert(pp * d <= nn);
        assert(q * pp <= nn + pp) by (nonlinear_arith)
            requires
                q <= d + 1,
                pp * d <= nn,
                pp > 0,
        ;
    }
    q * p
}

proof fn lemma_two_to_monotone(a: nat, b: nat)
    requires
        a <= b,
    ensures
        two_to(a) <= two_to(b),
    decreases b,
{
    if a < b {
        lemma_two_to_monotone(a, (b - 1) as nat);
        lemma_two_to_pos((b - 1) as nat);
    }
}

/// `num / den` in units of `1 / scale` (see `ratio_in_units`).
fn ratio_in_units_exec(num: u64, den: u64, scale: u64) -> (r: u64)
    requires
        num < 1048576,
        0 < den <= 1000,
        0 < scale <= 100,
    ensures
        r == ratio_in_units(num as nat, den as nat, scale as nat),
{
    let ghost t0 = significand_shift_from(num as nat, den as nat, 0);
    if num == 0 {
        proof {
            lemma_two_to_pos(t0);
            let inner = round_half_even(0 * two_to(t0), den as nat);
            assert(0 * two_to(t0) == 0);
            assert(inner == 0);
            assert(inner * (scale as nat) == 0);
            assert(round_half_even(0, two_to(t0)) == 0);
            assert(ratio_in_units(0, den as nat, scale as nat) == round_half_even(inner * (scale as nat), two_to(t0)));
        }
        return 0;
    }
    assert(two_to(52) == 4503599627370496) by {
        reveal_with_fuel(two_to, 53);
    }
    let target: u128 = 4503599627370496u128 * (den as u128);
    let mut t: u32 = 0;
    let mut p: u128 = 1;
    let mut np: u128 = num as u128;
    while t < 64 && np < target
        invariant
            1 <= num < 1048576,
            0 < den <= 1000,
            target == two_to(52) * den,
            target == 4503599627370496 * den,
            t <= 64,
            p == two_to(t as nat),
            np == num * p,
            p <= np,
            np < 2 * target,
            t0 == significand_shift_from(num as nat, den as nat, 0),
            t0 == significand_shift_from(num as nat, den as nat, t as nat),
        decreases 64 - t,
    {
        assert(two_to((t + 1) as nat) == 2 * two_to(t as nat));
        assert(num * (2 * p) == 2 * (num * p)) by (nonlinear_arith);
        t = t + 1;
        p = p * 2;
        np = np * 2;
    }
    let m = round_half_even_exec(np, den as u128);
    let ghost big: int = (num as int + 1) * (scale as int);
    proof {
        lemma_two_to_pos(t as nat);
        assert(np < 2 * 4503599627370496 * 1000);
        assert(m * scale <= p * big) by (nonlinear_arith)
            requires
                m <= num * p + 1,
                p >= 1,
                big == (num + 1) * scale,
                scale >= 0,
        ;
        assert(m * scale <= 0x1_0000_0000_0000_0000_0000) by (nonlinear_arith)
            requires
                m <= np + 1,
                np < 2 * 4503599627370496 * 1000,
                scale <= 100,
        ;
    }
    let h = round_half_even_exec(m * (scale as u128), p);
    proof {
        vstd::arithmetic::div_mod::lemma_div_is_ordered((m * scale) as int, p * big, p as int);
        vstd::arithmetic::div_mod::lemma_div_multiples_vanish(big, p as int);
        assert(big <= 1048576 * 100) by (nonlinear_arith)
            requires
                big == (num + 1) * scale,
                num < 1048576,
                scale <= 100,
        ;
    }
    h as u64
}

/// Prints `h` hundredths with two decimals.
fn hundredths_exec(h: u64) -> (r: String)
    ensures
        r@ == hundredths_text(h as nat),
{
    let whole = u64_to_text(h / 100);
    let mut s = concat(whole.as_str(), ".");
    crate::text::push_char(&mut s, digit_to_char((h / 10) % 10));
    crate::text::push_char(&mut s, digit_to_char(h % 10));
    proof {
        reveal_strlit(".");
    }
    assert(s@ =~= hundredths_text(h as nat));
    s
}

/// Prints `h` tenths with one decimal.
fn tenths_exec(h: u64) -> (r: String)
    ensures
        r@ == tenths_text(h as nat),
{
    let whole = u64_to_text(h / 10);
    let mut s = concat(whole.as_str(), ".");
    crate::text::push_char(&mut s, digit_to_char(h % 10));
    proof {
        reveal_strlit(".");
    }
    assert(s@ =~= tenths_text(h as nat));
    s
}

fn digit_to_char(d: u64) -> (c: char)
    requires
        d < 10,
    ensures
        c == digit_char(d as int),
{
    let b: u8 = (d as u8) + 48;
    b as char
}

/// A file size as text (see `size_text`).
pub fn format_bytes(bytes: u64) -> (r: String)
    ensures
        r@ == size_text(bytes as nat),
{
    if bytes < 1024 {
        let digits = u64_to_text(bytes);
        return concat(digits.as_str(), " B");
    }
    let (divisor, unit): (u128, &str) = if bytes >= 1073741824 {
        (1073741824, "GB")
    } else if bytes >= 1048576 {
        (1048576, "MB")
    } else {
        (1024, "KB")
    };
    let value = nearest_binary64_exec(bytes);
    let h = round_half_even_exec(value * 100, divisor);
    proof {
        vstd::arithmetic::div_mod::lemma_div_is_ordered_by_denominator((value * 100) as int, 1024, divisor as int);
        vstd::arithmetic::div_mod::lemma_div_is_ordered(
            (value * 100) as int,
            (0x1_0000_0000_0000_0000int + 2048) * 100,
            1024,
        );
        assert(((0x1_0000_0000_0000_0000int + 2048) * 100) / 1024 < 0x1_0000_0000_0000_0000 - 1);
    }
    let number = hundredths_exec(h as u64);
    let with_space = concat(number.as_str(), " ");
    concat(with_space.as_str(), unit)
}

/// An import duration as text (see `duration_text`).
pub fn format_duration_millis(duration_ms: Option<u64>) -> (r: String)
    ensures
        r@ == duration_text(duration_ms),
{
    let d = match duration_ms {
        None => return "耗时 -".to_owned(),
        Some(d) => d,
    };
    if d < 1000 {
        let digits = u64_to_text(d);
        let a = concat("耗时 ", digits.as_str());
        return concat(a.as_str(), " ms");
    }
    if d < 60000 {
        let h = ratio_in_units_exec(d, 1000, 100);
        let number = hundredths_exec(h);
        let a = concat("耗时 ", number.as_str());
        return concat(a.as_str(), " s");
    }
    let minutes = u64_to_text(d / 60000);
    let tenths = ratio_in_units_exec(d % 60000, 1000, 10);
    let seconds = tenths_exec(tenths);
    let a = concat("耗时 ", minutes.as_str());
    let b = concat(a.as_str(), " min ");
    let c = concat(b.as_str(), seconds.as_str());
    concat(c.as_str(), " s")
}

} // verus!
