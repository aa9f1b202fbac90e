//! The arithmetic expressions of computed columns: `+ - * /`, parentheses,
//! unary minus, decimal numbers and `{column}` references. Text is split into
//! tokens and parsed into postfix order; evaluating the numbers is left to
//! floating-point code.

use vstd::prelude::*;
use crate::text::{is_whitespace_char, is_ws, string_from_range, to_chars, trim, trim_spec};

verus! {

/// A token of an expression, or of its postfix form (`Negate` only occurs
/// there, parentheses only in the text).
#[derive(Clone, Debug, PartialEq, Eq)]
pub enum ExprToken {
    Number(String),
    Column(String),
    Plus,
    Minus,
    Star,
    Slash,
    Open,
    Close,
    Negate,
}

/// Abstract value of a token.
pub enum TokenView {
    Number(Seq<char>),
    Column(Seq<char>),
    Plus,
    Minus,
    Star,
    Slash,
    Open,
    Close,
    Negate,
}

impl View for ExprToken {
    type V = TokenView;

    open spec fn view(&self) -> TokenView {
        match self {
            ExprToken::Number(s) => TokenView::Number(s@),
            ExprToken::Column(s) => TokenView::Column(s@),
            ExprToken::Plus => TokenView::Plus,
            ExprToken::Minus => TokenView::Minus,
            ExprToken::Star => TokenView::Star,
            ExprToken::Slash => TokenView::Slash,
            ExprToken::Open => TokenView::Open,
            ExprToken::Close => TokenView::Close,
            ExprToken::Negate => TokenView::Negate,
        }
    }
}

/// The views of a list of tokens.
pub open spec fn token_views(v: Seq<ExprToken>) -> Seq<TokenView> {
    v.map_values(|t: ExprToken| t@)
}

/// A character of a decimal number: a digit or the point.
pub open spec fn number_char(c: char) -> bool {
    ('0' <= c && c <= '9') || c == '.'
}

/// The end of the run of number characters that starts at `i`.
pub open spec fn run_end(s: Seq<char>, i: int) -> int
    decreases s.len() - i,
{
    if 0 <= i < s.len() && number_char(s[i]) {
        run_end(s, i + 1)
    } else {
        i
    }
}

/// The position of the first `}` at or after `i`.
pub open spec fn close_at(s: Seq<char>, i: int) -> Option<int>
    decreases s.len() - i,
{
    if i < 0 || i >= s.len() {
        None
    } else if s[i] == '}' {
        Some(i)
    } else {
        close_at(s, i + 1)
    }
}

/// A number run and a closing brace lie at or after where the search starts.
pub proof fn lemma_scan_bounds(s: Seq<char>, i: int)
    requires
        0 <= i,
    ensures
        i <= run_end(s, i),
        i < s.len() ==> run_end(s, i) <= s.len(),
        forall|k: int| i <= k < run_end(s, i) ==> number_char(#[trigger] s[k]),
        close_at(s, i) matches Some(j) ==> i <= j < s.len() && s[j] == '}' && forall|k: int|
            i <= k < j ==> #[trigger] s[k] != '}',
        close_at(s, i) is None ==> forall|k: int| i <= k < s.len() ==> #[trigger] s[k] != '}',
    decreases s.len() - i,
{
    if i < s.len() {
        lemma_scan_bounds(s, i + 1);
    }
}

/// The token an operator character stands for.
pub open spec fn operator_token(c: char) -> Option<TokenView> {
    if c == '+' {
        Some(TokenView::Plus)
    } else if c == '-' {
        Some(TokenView::Minus)
    } else if c == '*' {
        Some(TokenView::Star)
    } else if c == '/' {
        Some(TokenView::Slash)
    } else if c == '(' {
        Some(TokenView::Open)
    } else if c == ')' {
        Some(TokenView::Close)
    } else {
        None
    }
}

/// The tokens of `s` from position `i`: white space is skipped; `{name}` is a
/// column reference (the name trimmed); `+ - * / ( )` are operators; a run of
/// digits and points is a number. An unclosed brace or any other character
/// makes the text unreadable.
pub open spec fn tokens_from(s: Seq<char>, i: int) -> Option<Seq<TokenView>>
    decreases s.len() - i,
{
    if i < 0 || i >= s.len() {
        Some(Seq::empty())
    } else if is_ws(s[i]) {
        tokens_from(s, i + 1)
    } else if s[i] == '{' {
        proof {
            lemma_scan_bounds(s, i + 1);
        }
        match close_at(s, i + 1) {
            None => None,
            Some(j) => match tokens_from(s, j + 1) {
                None => None,
                Some(rest) => Some(
                    seq![TokenView::Column(trim_spec(s.subrange(i + 1, j)))] + rest,
                ),
            },
        }
    } else if operator_token(s[i]) is Some {
        match tokens_from(s, i + 1) {
            None => None,
            Some(rest) => Some(seq![operator_token(s[i]).unwrap()] + rest),
        }
    } else if number_char(s[i]) {
        proof {
            lemma_scan_bounds(s, i);
            lemma_scan_bounds(s, i + 1);
        }
        match tokens_from(s, run_end(s, i)) {
            None => None,
            Some(rest) => Some(seq![TokenView::Number(s.subrange(i, run_end(s, i)))] + rest),
        }
    } else {
        None
    }
}

/// Splits an expression into tokens (see `tokens_from`); none when the text
/// holds an unclosed brace or a character of no token.
pub fn tokenize(text: &str) -> (r: Option<Vec<ExprToken>>)
    ensures
        match r {
            Some(v) => tokens_from(text@, 0) == Some(token_views(v@)),
            None => tokens_from(text@, 0) is None,
        },
{
    let chars = to_chars(text);
    let ghost s = text@;
    let n = chars.len();
    let mut out: Vec<ExprToken> = Vec::new();
    let mut i: usize = 0;
    while i < n
        invariant
            chars@ == s,
            s == text@,
            n == s.len(),
            0 <= i <= n,
            tokens_from(s, 0) == match tokens_from(s, i as int) {
                Some(rest) => Some(token_views(out@) + rest),
                None => None::<Seq<TokenView>>,
            },
        decreases n - i,
    {
        let c = chars[i];
        let ghost before = token_views(out@);
        if is_whitespace_char(c) {
            i += 1;
        } else if c == '{' {
            proof {
                lemma_scan_bounds(s, i + 1);
            }
            let mut j: usize = i + 1;
            while j < n && chars[j] != '}'
                invariant
                    chars@ == s,
                    n == s.len(),
                    i < j <= n,
                    close_at(s, i + 1) == close_at(s, j as int),
                decreases n - j,
            {
                j += 1;
            }
            if j >= n {
                assert(close_at(s, j as int) is None);
                return None;
            }
            assert(close_at(s, j as int) == Some(j as int));
            let raw = string_from_range(&chars, i + 1, j);
            let name = trim(raw.as_str());
            out.push(ExprToken::Column(name));
            assert(token_views(out@) =~= before + seq![TokenView::Column(trim_spec(s.subrange(i + 1, j as int)))]);
            i = j + 1;
        } else if c == '+' || c == '-' || c == '*' || c == '/' || c == '(' || c == ')' {
            let t = if c == '+' {
                ExprToken::Plus
            } else if c == '-' {
                ExprToken::Minus
            } else if c == '*' {
                ExprToken::Star
            } else if c == '/' {
                ExprToken::Slash
            } else if c == '(' {
                ExprToken::Open
            } else {
                ExprToken::Close
            };
            assert(Some(t@) == operator_token(c));
            out.push(t);
            assert(token_views(out@) =~= before + seq![operator_token(c).unwrap()]);
            i += 1;
        } else if ('0' <= c && c <= '9') || c == '.' {
            proof {
                lemma_scan_bounds(s, i as int);
            }
            let mut j: usize = i;
            while j < n && (('0' <= chars[j] && chars[j] <= '9') || chars[j] == '.')
                invariant
                    chars@ == s,
                    n == s.len(),
                    i <= j <= n,
                    run_end(s, i as int) == run_end(s, j as int),
                decreases n - j,
            {
                j += 1;
            }
            assert(run_end(s, j as int) == j);
            let number = string_from_range(&chars, i, j);
            out.push(ExprToken::Number(number));
            assert(token_views(out@) =~= before + seq![TokenView::Number(s.subrange(i as int, j as int))]);
            i = j;
        } else {
            return None;
        }
    }
    Some(out)
}

/// A factor from token `p`: a number or column reference; a minus sign and a
/// factor (negated after it); or a sum in parentheses. The tokens in postfix
/// order and the position after the factor.
pub open spec fn parse_factor(t: Seq<TokenView>, p: int) -> Option<(Seq<TokenView>, int)>
    decreases t.len() - p, 0int,
{
    if p < 0 || p >= t.len() {
        None
    } else if t[p] is Number || t[p] is Column {
        Some((seq![t[p]], p + 1))
    } else if t[p] is Minus {
        match parse_factor(t, p + 1) {
            Some((r, q)) => Some((r.push(TokenView::Negate), q)),
            None => None,
        }
    } else if t[p] is Open {
        match parse_sum(t, p + 1) {
            Some((r, q)) => if 0 <= q < t.len() && t[q] is Close {
                Some((r, q + 1))
            } else {
                None
            },
            None => None,
        }
    } else {
        None
    }
}

/// Factors joined by `*` and `/` from left to right, after the postfix
/// tokens `acc` of what came before position `q`.
pub open spec fn product_rest(t: Seq<TokenView>, q: int, acc: Seq<TokenView>) -> Option<(Seq<TokenView>, int)>
    decreases t.len() - q, 1int,
{
    if 0 <= q < t.len() && (t[q] is Star || t[q] is Slash) {
        match parse_factor(t, q + 1) {
            Some((r, q2)) => if q < q2 <= t.len() {
                product_rest(t, q2, acc + r + seq![t[q]])
            } else {
                None
            },
            None => None,
        }
    } else {
        Some((acc, q))
    }
}

/// A product from token `p`: a factor, then any `*` or `/` factors.
pub open spec fn parse_product(t: Seq<TokenView>, p: int) -> Option<(Seq<TokenView>, int)>
    decreases t.len() - p, 2int,
{
    match parse_factor(t, p) {
        Some((r, q)) => if p < q <= t.len() {
            product_rest(t, q, r)
        } else {
            None
        },
        None => None,
    }
}

/// Products joined by `+` and `-` from left to right, after the postfix
/// tokens `acc` of what came before position `q`.
pub open spec fn sum_rest(t: Seq<TokenView>, q: int, acc: Seq<TokenView>) -> Option<(Seq<TokenView>, int)>
    decreases t.len() - q, 3int,
{
    if 0 <= q < t.len() && (t[q] is Plus || t[q] is Minus) {
        match parse_product(t, q + 1) {
            Some((r, q2)) => if q < q2 <= t.len() {
                sum_rest(t, q2, acc + r + seq![t[q]])
            } else {
                None
            },
            None => None,
        }
    } else {
        Some((acc, q))
    }
}

/// A sum from token `p`: a product, then any `+` or `-` products.
pub open spec fn parse_sum(t: Seq<TokenView>, p: int) -> Option<(Seq<TokenView>, int)>
    decreases t.len() - p, 4int,
{
    match parse_product(t, p) {
        Some((r, q)) => if p < q <= t.len() {
            sum_rest(t, q, r)
        } else {
            None
        },
        None => None,
    }
}

/// The postfix form of a whole token list: one sum that uses every token.
pub open spec fn postfix_of(t: Seq<TokenView>) -> Option<Seq<TokenView>> {
    match parse_sum(t, 0) {
        Some((r, q)) => if q == t.len() {
            Some(r)
        } else {
            None
        },
        None => None,
    }
}

/// The postfix form of an expression's text: its tokens, parsed.
pub open spec fn expression_postfix(text: Seq<char>) -> Option<Seq<TokenView>> {
    match tokens_from(text, 0) {
        Some(t) => postfix_of(t),
        None => None,
    }
}

/// A copy of a token.
fn copy_token(t: &ExprToken) -> (r: ExprToken)
    ensures
        r@ == t@,
{
    match t {
        ExprToken::Number(s) => ExprToken::Number(s.clone()),
        ExprToken::Column(s) => ExprToken::Column(s.clone()),
        ExprToken::Plus => ExprToken::Plus,
        ExprToken::Minus => ExprToken::Minus,
        ExprToken::Star => ExprToken::Star,
        ExprToken::Slash => ExprToken::Slash,
        ExprToken::Open => ExprToken::Open,
        ExprToken::Close => ExprToken::Close,
        ExprToken::Negate => ExprToken::Negate,
    }
}

/// Appends copies of `more` to `acc`.
fn append_tokens(acc: &mut Vec<ExprToken>, more: &Vec<ExprToken>)
    ensures
        token_views(final(acc)@) == token_views(old(acc)@) + token_views(more@),
{
    let ghost start = token_views(acc@);
    let mut k: usize = 0;
    while k < more.len()
        invariant
            0 <= k <= more@.len(),
            token_views(acc@) == start + token_views(more@).take(k as int),
        decreases more.len() - k,
    {
        let ghost before = token_views(acc@);
        acc.push(copy_token(&more[k]));
        assert(token_views(acc@) =~= before.push(more@[k as int]@));
        assert(token_views(more@).take(k + 1) =~= token_views(more@).take(k as int).push(more@[k as int]@));
        k += 1;
    }
    assert(token_views(more@).take(more@.len() as int) =~= token_views(more@));
}

/// Parses a factor (see `parse_factor`).
fn factor_at(toks: &Vec<ExprToken>, p: usize) -> (r: Option<(Vec<ExprToken>, usize)>)
    ensures
        match r {
            Some((v, q)) => parse_factor(token_views(toks@), p as int) == Some((token_views(v@), q as int))
                && p < q <= toks@.len(),
            None => parse_factor(token_views(toks@), p as int) is None,
        },
    decreases toks@.len() - p, 0int,
{
    let ghost t = token_views(toks@);
    if p >= toks.len() {
        return None;
    }
    assert(t[p as int] == toks@[p as int]@);
    match &toks[p] {
        ExprToken::Number(_) | ExprToken::Column(_) => {
            let mut v: Vec<ExprToken> = Vec::new();
            v.push(copy_token(&toks[p]));
            assert(token_views(v@) =~= seq![t[p as int]]);
            Some((v, p + 1))
        },
        ExprToken::Minus => match factor_at(toks, p + 1) {
            Some((mut v, q)) => {
                let ghost before = token_views(v@);
                v.push(ExprToken::Negate);
                assert(token_views(v@) =~= before.push(TokenView::Negate));
                Some((v, q))
            },
            None => None,
        },
        ExprToken::Open => match sum_at(toks, p + 1) {
            Some((v, q)) => {
                if q < toks.len() {
                    assert(t[q as int] == toks@[q as int]@);
                    match &toks[q] {
                        ExprToken::Close => Some((v, q + 1)),
                        _ => None,
                    }
                } else {
                    None
                }
            },
            None => None,
        },
        _ => None,
    }
}

/// Continues a product after position `q` (see `product_rest`).
fn product_rest_at(toks: &Vec<ExprToken>, q: usize, acc: Vec<ExprToken>) -> (r: Option<(Vec<ExprToken>, usize)>)
    requires
        q <= toks@.len(),
    ensures
        match r {
            Some((v, e)) => product_rest(token_views(toks@), q as int, token_views(acc@)) == Some(
                (token_views(v@), e as int),
            ) && q <= e <= toks@.len(),
            None => product_rest(token_views(toks@), q as int, token_views(acc@)) is None,
        },
    decreases toks@.len() - q, 1int,
{
    let ghost t = token_views(toks@);
    if q < toks.len() {
        assert(t[q as int] == toks@[q as int]@);
        let is_op = match &toks[q] {
            ExprToken::Star | ExprToken::Slash => true,
            _ => false,
        };
        if is_op {
            match factor_at(toks, q + 1) {
                Some((r, q2)) => {
                    let mut next = acc;
                    let ghost a0 = token_views(next@);
                    append_tokens(&mut next, &r);
                    let ghost a1 = token_views(next@);
                    next.push(copy_token(&toks[q]));
                    assert(token_views(next@) =~= a1.push(t[q as int]));
                    assert(token_views(next@) =~= a0 + token_views(r@) + seq![t[q as int]]);
                    return product_rest_at(toks, q2, next);
                },
                None => return None,
            }
        }
    }
    Some((acc, q))
}

/// Parses a product (see `parse_product`).
fn product_at(toks: &Vec<ExprToken>, p: usize) -> (r: Option<(Vec<ExprToken>, usize)>)
    ensures
        match r {
            Some((v, q)) => parse_product(token_views(toks@), p as int) == Some((token_views(v@), q as int))
                && p < q <= toks@.len(),
            None => parse_product(token_views(toks@), p as int) is None,
        },
    decreases toks@.len() - p, 2int,
{
    match factor_at(toks, p) {
        Some((r, q)) => product_rest_at(toks, q, r),
        None => None,
    }
}

/// Continues a sum after position `q` (see `sum_rest`).
fn sum_rest_at(toks: &Vec<ExprToken>, q: usize, acc: Vec<ExprToken>) -> (r: Option<(Vec<ExprToken>, usize)>)
    requires
        q <= toks@.len(),
    ensures
        match r {
            Some((v, e)) => sum_rest(token_views(toks@), q as int, token_views(acc@)) == Some(
                (token_views(v@), e as int),
            ) && q <= e <= toks@.len(),
            None => sum_rest(token_views(toks@), q as int, token_views(acc@)) is None,
        },
    decreases toks@.len() - q, 3int,
{
    let ghost t = token_views(toks@);
    if q < toks.len() {
        assert(t[q as int] == toks@[q as int]@);
        let is_op = match &toks[q] {
            ExprToken::Plus | ExprToken::Minus => true,
            _ => false,
        };
        if is_op {
            match product_at(toks, q + 1) {
                Some((r, q2)) => {
                    let mut next = acc;
                    let ghost a0 = token_views(next@);
                    append_tokens(&mut next, &r);
                    let ghost a1 = token_views(next@);
                    next.push(copy_token(&toks[q]));
                    assert(token_views(next@) =~= a1.push(t[q as int]));
                    assert(token_views(next@) =~= a0 + token_views(r@) + seq![t[q as int]]);
                    return sum_rest_at(toks, q2, next);
                },
                None => return None,
            }
        }
    }
    Some((acc, q))
}

/// Parses a sum (see `parse_sum`).
fn sum_at(toks: &Vec<ExprToken>, p: usize) -> (r: Option<(Vec<ExprToken>, usize)>)
    ensures
        match r {
            Some((v, q)) => parse_sum(token_views(toks@), p as int) == Some((token_views(v@), q as int))
                && p < q <= toks@.len(),
            None => parse_sum(token_views(toks@), p as int) is None,
        },
    decreases toks@.len() - p, 4int,
{
    match product_at(toks, p) {
        Some((r, q)) => sum_rest_at(toks, q, r),
        None => None,
    }
}

/// The postfix form of an expression's text (see `expression_postfix`): none
/// when it cannot be split into tokens or is not one complete sum.
pub fn parse_expression(text: &str) -> (r: Option<Vec<ExprToken>>)
    ensures
        match r {
            Some(v) => expression_postfix(text@) == Some(token_views(v@)),
            None => expression_postfix(text@) is None,
        },
{
    let toks = match tokenize(text) {
        Some(t) => t,
        None => return None,
    };
    match sum_at(&toks, 0) {
        Some((v, q)) => if q == toks.len() {
            Some(v)
        } else {
            None
        },
        None => None,
    }
}

} // verus!
