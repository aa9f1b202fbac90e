//! Decimal integer text: recognition, parsing and printing, and the syntax of
//! floating-point literals.

use vstd::prelude::*;
use crate::text::{
    ascii_lower, concat, find_chars_from, occurs_at, string_from_range, text_eq, to_ascii_lowercase, find_from, find_text, lemma_find_from, push_char, to_chars,
};

verus! {

pub open spec fn is_digit(c: char) -> bool {
    '0' <= c && c <= '9'
}

pub open spec fn digit_value(c: char) -> int {
    (c as int) - ('0' as int)
}

pub open spec fn all_digits(s: Seq<char>) -> bool {
    forall|i: int| 0 <= i < s.len() ==> is_digit(#[trigger] s[i])
}

/// Value of a run of decimal digits.
pub open spec fn digits_value(s: Seq<char>) -> int
    decreases s.len(),
{
    if s.len() == 0 {
        0
    } else {
        10 * digits_value(s.drop_last()) + digit_value(s.last())
    }
}

/// Text without its single leading sign character, if any.
pub open spec fn unsigned_part(s: Seq<char>) -> Seq<char> {
    if s.len() > 0 && (s[0] == '-' || s[0] == '+') {
        s.drop_first()
    } else {
        s
    }
}

/// `i64::from_str`: an optional sign, one or more ASCII digits, a value in range.
pub open spec fn parse_int_spec(s: Seq<char>) -> Option<int> {
    let body = unsigned_part(s);
    if body.len() == 0 || !all_digits(body) {
        None
    } else {
        let v = if s[0] == '-' {
            -digits_value(body)
        } else {
            digits_value(body)
        };
        if i64::MIN <= v && v <= i64::MAX {
            Some(v)
        } else {
            None
        }
    }
}

/// Whether a character is an ASCII digit.
pub fn is_digit_char(c: char) -> (r: bool)
    ensures
        r == is_digit(c),
{
    '0' <= c && c <= '9'
}

proof fn lemma_digits_nonneg(s: Seq<char>)
    requires
        all_digits(s),
    ensures
        digits_value(s) >= 0,
    decreases s.len(),
{
    if s.len() > 0 {
        assert(is_digit(s[s.len() - 1]));
        lemma_digits_nonneg(s.drop_last());
    }
}

/// `i64::from_str`.
pub fn parse_i64(s: &str) -> (r: Option<i64>)
    ensures
        match r {
            Some(v) => parse_int_spec(s@) == Some(v as int),
            None => parse_int_spec(s@) is None,
        },
{
    let v = to_chars(s);
    if v.len() == 0 {
        return None;
    }
    let negative = v[0] == '-';
    let start: usize = if v[0] == '-' || v[0] == '+' { 1 } else { 0 };
    let ghost body = unsigned_part(s@);
    assert(body =~= s@.skip(start as int));
    if start == v.len() {
        return None;
    }
    let limit: u64 = 0x8000_0000_0000_0000;
    let mut acc: u64 = 0;
    let mut over = false;
    let mut i = start;
    assert(body.take(0) =~= Seq::<char>::empty());
    while i < v.len()
        invariant
            v@ == s@,
            start <= i <= v@.len(),
            body == s@.skip(start as int),
            body == unsigned_part(s@),
            all_digits(body.take(i - start)),
            !over ==> acc as int == digits_value(body.take(i - start)) && acc <= limit,
            over ==> digits_value(body.take(i - start)) > limit,
            limit == 0x8000_0000_0000_0000u64,
        decreases v.len() - i,
    {
        let c = v[i];
        if !is_digit_char(c) {
            assert(body[i - start] == c);
            assert(!is_digit(body[i - start]));
            assert(!all_digits(body));
            return None;
        }
        let ghost prev = body.take(i - start);
        let ghost next = body.take(i - start + 1);
        assert(next.drop_last() =~= prev);
        assert(next.last() == c);
        assert forall|k: int| 0 <= k < next.len() implies is_digit(#[trigger] next[k]) by {
            if k < prev.len() {
                assert(next[k] == prev[k]);
            }
        }
        proof {
            lemma_digits_nonneg(prev);
        }
        let d: u64 = (c as u64) - ('0' as u64);
        if !over {
            if acc > (limit - d) / 10 {
                over = true;
            } else {
                acc = acc * 10 + d;
            }
        }
        i += 1;
    }
    assert(body.take(i - start) =~= body);
    proof {
        lemma_digits_nonneg(body);
    }
    if over {
        return None;
    }
    if negative {
        if acc == limit {
            Some(i64::MIN)
        } else {
            Some(-(acc as i64))
        }
    } else {
        if acc == limit {
            None
        } else {
            Some(acc as i64)
        }
    }
}

/// A parsed `usize` lies in the range of `usize`.
pub proof fn lemma_parse_usize_range(s: Seq<char>)
    ensures
        parse_usize_spec(s) matches Some(v) ==> 0 <= v <= usize::MAX,
{
    let body = if s.len() > 0 && s[0] == '+' {
        s.drop_first()
    } else {
        s
    };
    if body.len() > 0 && all_digits(body) {
        lemma_digits_nonneg(body);
    }
}

/// `usize::from_str`: an optional `+`, one or more ASCII digits, a value in range.
pub open spec fn parse_usize_spec(s: Seq<char>) -> Option<int> {
    let body = if s.len() > 0 && s[0] == '+' {
        s.drop_first()
    } else {
        s
    };
    if body.len() == 0 || !all_digits(body) || digits_value(body) > usize::MAX {
        None
    } else {
        Some(digits_value(body))
    }
}

/// `usize::from_str`.
pub fn parse_usize(s: &str) -> (r: Option<usize>)
    ensures
        match r {
            Some(v) => parse_usize_spec(s@) == Some(v as int),
            None => parse_usize_spec(s@) is None,
        },
{
    let v = to_chars(s);
    if v.len() == 0 {
        return None;
    }
    let start: usize = if v[0] == '+' { 1 } else { 0 };
    let ghost body = if s@.len() > 0 && s@[0] == '+' {
        s@.drop_first()
    } else {
        s@
    };
    assert(body =~= s@.skip(start as int));
    if start == v.len() {
        return None;
    }
    let mut acc: usize = 0;
    let mut over = false;
    let mut i = start;
    assert(body.take(0) =~= Seq::<char>::empty());
    while i < v.len()
        invariant
            v@ == s@,
            start <= i <= v@.len(),
            body == s@.skip(start as int),
            body == (if s@.len() > 0 && s@[0] == '+' {
                s@.drop_first()
            } else {
                s@
            }),
            all_digits(body.take(i - start)),
            !over ==> acc as int == digits_value(body.take(i - start)),
            over ==> digits_value(body.take(i - start)) > usize::MAX,
        decreases v.len() - i,
    {
        let c = v[i];
        if !is_digit_char(c) {
            assert(body[i - start] == c);
            assert(!is_digit(body[i - start]));
            assert(!all_digits(body));
            return None;
        }
        let ghost prev = body.take(i - start);
        let ghost next = body.take(i - start + 1);
        assert(next.drop_last() =~= prev);
        assert(next.last() == c);
        assert forall|k: int| 0 <= k < next.len() implies is_digit(#[trigger] next[k]) by {
            if k < prev.len() {
                assert(next[k] == prev[k]);
            }
        }
        proof {
            lemma_digits_nonneg(prev);
        }
        let d: usize = ((c as u32) - ('0' as u32)) as usize;
        if !over {
            if acc > (usize::MAX - d) / 10 {
                over = true;
            } else {
                acc = acc * 10 + d;
            }
        } else {
            assert(digits_value(next) >= 10 * digits_value(prev));
        }
        i += 1;
    }
    assert(body.take(i - start) =~= body);
    if over {
        None
    } else {
        Some(acc)
    }
}

pub open spec fn digit_char(d: int) -> char {
    (d + 48) as char
}

/// Shortest decimal text of a natural number.
pub open spec fn decimal_spec(n: nat) -> Seq<char>
    decreases n,
{
    if n < 10 {
        seq![digit_char(n as int)]
    } else {
        decimal_spec(n / 10).push(digit_char((n % 10) as int))
    }
}

/// `to_string` of an integer: a minus sign for negatives, then the digits.
pub open spec fn int_text_spec(v: int) -> Seq<char> {
    if v < 0 {
        seq!['-'] + decimal_spec((-v) as nat)
    } else {
        decimal_spec(v as nat)
    }
}

/// Decimal text consists of digits and reads back as the number it prints.
pub proof fn lemma_decimal_roundtrip(n: nat)
    ensures
        all_digits(decimal_spec(n)),
        digits_value(decimal_spec(n)) == n,
    decreases n,
{
    let d = (n % 10) as int;
    assert(is_digit(digit_char(d)) && digit_value(digit_char(d)) == d) by {
        assert(0 <= d < 10);
        assert((d + 48) as char as int == d + 48);
    }
    if n < 10 {
        assert(d == n);
        let s = decimal_spec(n);
        assert(s.drop_last() =~= Seq::<char>::empty());
        assert(digits_value(s) == 10 * digits_value(s.drop_last()) + digit_value(s.last()));
    } else {
        lemma_decimal_roundtrip(n / 10);
        let s = decimal_spec(n);
        assert(s.drop_last() =~= decimal_spec(n / 10));
        assert(s.last() == digit_char(d));
        assert(digits_value(s) == 10 * digits_value(s.drop_last()) + digit_value(s.last()));
        assert(10 * (n / 10) + n % 10 == n);
        assert forall|i: int| 0 <= i < s.len() implies is_digit(#[trigger] s[i]) by {
            if i < s.len() - 1 {
                assert(s[i] == decimal_spec(n / 10)[i]);
            }
        }
    }
}

/// Different numbers print differently.
pub proof fn lemma_decimal_injective(a: nat, b: nat)
    requires
        decimal_spec(a) == decimal_spec(b),
    ensures
        a == b,
{
    lemma_decimal_roundtrip(a);
    lemma_decimal_roundtrip(b);
}

fn digit_to_char(d: u64) -> (c: char)
    requires
        d < 10,
    ensures
        c == digit_char(d as int),
{
    let b: u8 = (d as u8) + 48;
    b as char
}

/// `u64::to_string`.
pub fn u64_to_text(n: u64) -> (r: String)
    ensures
        r@ == decimal_spec(n as nat),
    decreases n,
{
    if n < 10 {
        let mut s = String::new();
        push_char(&mut s, digit_to_char(n));
        assert(s@ =~= seq![digit_char(n as int)]);
        s
    } else {
        let mut s = u64_to_text(n / 10);
        push_char(&mut s, digit_to_char(n % 10));
        s
    }
}

/// `usize::to_string`.
pub fn usize_to_text(n: usize) -> (r: String)
    ensures
        r@ == decimal_spec(n as nat),
{
    u64_to_text(n as u64)
}

/// `i64::to_string`.
pub fn i64_to_text(v: i64) -> (r: String)
    ensures
        r@ == int_text_spec(v as int),
{
    if v < 0 {
        let magnitude: u64 = ((-(v + 1)) as u64) + 1;
        assert(magnitude as int == -(v as int));
        let digits = u64_to_text(magnitude);
        proof {
            reveal_strlit("-");
        }
        concat("-", digits.as_str())
    } else {
        u64_to_text(v as u64)
    }
}

/// `a` followed by the decimal text of `n`.
pub fn append_number(a: &str, n: usize) -> (r: String)
    ensures
        r@ == a@ + decimal_spec(n as nat),
{
    let digits = usize_to_text(n);
    concat(a, digits.as_str())
}

/// Mantissa of a float literal: digits with at most one point, at least one digit.
pub open spec fn mantissa_ok(m: Seq<char>) -> bool {
    match find_text(m, seq!['.']) {
        None => m.len() > 0 && all_digits(m),
        Some(d) => all_digits(m.take(d)) && all_digits(m.skip(d + 1)) && (d > 0 || m.len()
            > d + 1),
    }
}

/// Exponent of a float literal: an optional sign, then one or more digits.
pub open spec fn exponent_ok(e: Seq<char>) -> bool {
    let b = unsigned_part(e);
    b.len() > 0 && all_digits(b)
}

/// Position of the first exponent marker.
pub open spec fn exponent_mark(s: Seq<char>) -> Option<int>
    decreases s.len(),
{
    if s.len() == 0 {
        None
    } else {
        match exponent_mark(s.drop_last()) {
            Some(i) => Some(i),
            None => if s.last() == 'e' || s.last() == 'E' {
                Some(s.len() - 1)
            } else {
                None
            },
        }
    }
}

/// The decimal-number part of the float grammar.
pub open spec fn decimal_number_ok(s: Seq<char>) -> bool {
    match exponent_mark(s) {
        Some(k) => mantissa_ok(s.take(k)) && exponent_ok(s.skip(k + 1)),
        None => mantissa_ok(s),
    }
}

/// Texts that `f64::from_str` accepts: an optional sign, then `inf`, `infinity`,
/// `nan` (any case) or a decimal number with an optional exponent.
pub open spec fn float_text_ok(s: Seq<char>) -> bool {
    let b = unsigned_part(s);
    let l = ascii_lower(b);
    l == "inf"@ || l == "infinity"@ || l == "nan"@ || decimal_number_ok(b)
}

/// All characters of `v[start..end]` are digits.
fn digits_in_range(v: &Vec<char>, start: usize, end: usize) -> (r: bool)
    requires
        start <= end <= v@.len(),
    ensures
        r == all_digits(v@.subrange(start as int, end as int)),
{
    let mut i = start;
    while i < end
        invariant
            start <= i <= end <= v@.len(),
            forall|k: int| start <= k < i ==> is_digit(#[trigger] v@[k]),
        decreases end - i,
    {
        if !is_digit_char(v[i]) {
            assert(v@.subrange(start as int, end as int)[i - start] == v@[i as int]);
            return false;
        }
        i += 1;
    }
    assert forall|k: int| 0 <= k < end - start implies is_digit(
        #[trigger] v@.subrange(start as int, end as int)[k],
    ) by {
        assert(v@.subrange(start as int, end as int)[k] == v@[start + k]);
    }
    true
}

fn mantissa_ok_exec(m: &Vec<char>) -> (r: bool)
    ensures
        r == mantissa_ok(m@),
{
    let mut dot_chars: Vec<char> = Vec::new();
    dot_chars.push('.');
    assert(dot_chars@ =~= seq!['.']);
    match find_chars_from(m, &dot_chars, 0) {
        None => {
            assert(m@.subrange(0, m@.len() as int) =~= m@);
            m.len() > 0 && digits_in_range(m, 0, m.len())
        },
        Some(d) => {
            proof {
                lemma_find_from(m@, seq!['.'], 0);
                assert(seq!['.'].len() == 1);
                assert(occurs_at(m@, seq!['.'], d as int));
                assert(m@.subrange(d as int, d + 1)[0] == m@[d as int]);
            }
            let n = m.len();
            let before = digits_in_range(m, 0, d);
            let after = digits_in_range(m, d + 1, n);
            assert(m@.take(d as int) =~= m@.subrange(0, d as int));
            assert(m@.skip(d + 1) =~= m@.subrange(d + 1, m@.len() as int));
            before && after && (d > 0 || m.len() > d + 1)
        },
    }
    // closing brace of match above is the result
}

fn exponent_mark_exec(v: &Vec<char>) -> (r: Option<usize>)
    ensures
        match r {
            Some(k) => exponent_mark(v@) == Some(k as int),
            None => exponent_mark(v@) is None,
        },
{
    let mut found: Option<usize> = None;
    let mut i: usize = 0;
    assert(v@.take(0) =~= Seq::<char>::empty());
    while i < v.len()
        invariant
            0 <= i <= v@.len(),
            match found {
                Some(k) => exponent_mark(v@.take(i as int)) == Some(k as int),
                None => exponent_mark(v@.take(i as int)) is None,
            },
        decreases v.len() - i,
    {
        assert(v@.take(i + 1).drop_last() =~= v@.take(i as int));
        if found.is_none() && (v[i] == 'e' || v[i] == 'E') {
            found = Some(i);
        }
        i += 1;
    }
    assert(v@.take(v@.len() as int) =~= v@);
    found
}

fn exponent_ok_exec(v: &Vec<char>, start: usize) -> (r: bool)
    requires
        start <= v@.len(),
    ensures
        r == exponent_ok(v@.skip(start as int)),
{
    let ghost e = v@.skip(start as int);
    let mut from = start;
    if start < v.len() && (v[start] == '-' || v[start] == '+') {
        from = start + 1;
    }
    assert(unsigned_part(e) =~= v@.subrange(from as int, v@.len() as int));
    from < v.len() && digits_in_range(v, from, v.len())
}

/// Whether `f64::from_str` accepts the text.
pub fn float_text_ok_exec(s: &str) -> (r: bool)
    ensures
        r == float_text_ok(s@),
{
    let v = to_chars(s);
    let start: usize = if v.len() > 0 && (v[0] == '-' || v[0] == '+') { 1 } else { 0 };
    let body = string_from_range(&v, start, v.len());
    assert(body@ =~= unsigned_part(s@));
    let lower = to_ascii_lowercase(body.as_str());
    if text_eq(lower.as_str(), "inf") || text_eq(lower.as_str(), "infinity") || text_eq(
        lower.as_str(),
        "nan",
    ) {
        return true;
    }
    let b = to_chars(body.as_str());
    match exponent_mark_exec(&b) {
        Some(k) => {
            proof {
                lemma_exponent_mark(b@);
            }
            let mantissa = string_from_range(&b, 0, k);
            let m = to_chars(mantissa.as_str());
            assert(m@ =~= b@.take(k as int));
            mantissa_ok_exec(&m) && exponent_ok_exec(&b, k + 1)
        },
        None => mantissa_ok_exec(&b),
    }
}

proof fn lemma_exponent_mark(s: Seq<char>)
    ensures
        exponent_mark(s) matches Some(k) ==> 0 <= k < s.len(),
    decreases s.len(),
{
    if s.len() > 0 {
        lemma_exponent_mark(s.drop_last());
    }
}

/// Printing a number in decimal and reading the text back as an `i64` gives
/// the number, with or without a minus sign, for every number in range.
pub proof fn lemma_int_text_reads_back(n: nat)
    ensures
        n <= i64::MAX ==> parse_int_spec(decimal_spec(n)) == Some(n as int),
        n <= i64::MAX + 1 ==> parse_int_spec(seq!['-'] + decimal_spec(n)) == Some(-(n as int)),
{
    lemma_decimal_roundtrip(n);
    let d = decimal_spec(n);
    if d.len() == 0 {
        lemma_decimal_nonempty(n);
    }
    assert(is_digit(d[0]));
    let m = seq!['-'] + d;
    assert(m.drop_first() =~= d);
}

/// Decimal text is never empty.
proof fn lemma_decimal_nonempty(n: nat)
    ensures
        decimal_spec(n).len() > 0,
    decreases n,
{
    if n >= 10 {
        lemma_decimal_nonempty(n / 10);
    }
}

/// A text without `e` or `E` has no exponent marker.
proof fn lemma_no_exponent_mark(s: Seq<char>)
    requires
        forall|i: int| 0 <= i < s.len() ==> #[trigger] s[i] != 'e' && s[i] != 'E',
    ensures
        exponent_mark(s) is None,
    decreases s.len(),
{
    if s.len() > 0 {
        lemma_no_exponent_mark(s.drop_last());
    }
}

/// Digits, or digits with one point among them (at least one digit in all),
/// read as an `f64`: `7`, `1.5`, `.5` and `5.` are all numbers.
pub proof fn lemma_decimal_text_is_float(a: Seq<char>, b: Seq<char>)
    requires
        all_digits(a),
        all_digits(b),
    ensures
        a.len() > 0 ==> float_text_ok(a),
        a.len() + b.len() > 0 ==> float_text_ok(a + seq!['.'] + b),
{
    let m = a + seq!['.'] + b;
    assert forall|i: int| 0 <= i < a.len() implies #[trigger] a[i] != 'e' && a[i] != 'E' by {
        assert(is_digit(a[i]));
    }
    assert forall|i: int| 0 <= i < m.len() implies #[trigger] m[i] != 'e' && m[i] != 'E' by {
        if i < a.len() {
            assert(m[i] == a[i]);
            assert(is_digit(a[i]));
        } else if i > a.len() {
            assert(m[i] == b[i - a.len() - 1]);
            assert(is_digit(b[i - a.len() - 1]));
        }
    }
    lemma_no_exponent_mark(a);
    lemma_no_exponent_mark(m);
    if a.len() > 0 {
        assert(is_digit(a[0]));
        lemma_find_from(a, seq!['.'], 0);
        if let Some(k) = find_text(a, seq!['.']) {
            assert(a.subrange(k, k + 1) == seq!['.']);
            assert(a[k] == a.subrange(k, k + 1)[0]);
            assert(is_digit(a[k]));
        }
        assert(unsigned_part(a) == a);
    }
    if a.len() + b.len() > 0 {
        if a.len() > 0 {
            assert(m[0] == a[0]);
            assert(is_digit(a[0]));
        } else {
            assert(m[0] == '.');
        }
        assert(unsigned_part(m) == m);
        lemma_find_from(m, seq!['.'], 0);
        assert(occurs_at(m, seq!['.'], a.len() as int)) by {
            assert(m.subrange(a.len() as int, a.len() as int + 1) =~= seq!['.']);
        }
        assert forall|j: int| 0 <= j < a.len() implies !occurs_at(m, seq!['.'], j) by {
            if occurs_at(m, seq!['.'], j) {
                assert(m.subrange(j, j + 1)[0] == m[j]);
                assert(m[j] == a[j]);
                assert(is_digit(a[j]));
            }
        }
        let k = find_text(m, seq!['.']).unwrap();
        assert(k == a.len());
        assert(m.take(k) =~= a);
        assert(m.skip(k + 1) =~= b);
    }
}

/// Text that reads as an `i64` also reads as an `f64`.
pub proof fn lemma_int_text_is_float(s: Seq<char>)
    requires
        parse_int_spec(s) is Some,
    ensures
        float_text_ok(s),
{
    let b = unsigned_part(s);
    assert(unsigned_part(b) == b) by {
        assert(is_digit(b[0]));
    }
    lemma_decimal_text_is_float(b, Seq::empty());
}

} // verus!
