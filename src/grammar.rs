use vstd::prelude::*;
use vstd::string::StringSliceAdditionalSpecFns;

use crate::syntax::{ExprAddSub, ExprBrackets, ExprMulDiv, ExprPower};

verus! {

/// The bytes of the operators and parentheses.
pub const PLUS: u8 = 0x2b;
pub const MINUS: u8 = 0x2d;
pub const STAR: u8 = 0x2a;
pub const SLASH: u8 = 0x2f;
pub const CARET: u8 = 0x5e;
pub const OPEN: u8 = 0x28;
pub const CLOSE: u8 = 0x29;

/// The text from byte `p` to the end.
pub open spec fn tail(input: Seq<u8>, p: int) -> Seq<u8> {
    input.subrange(p, input.len() as int)
}

/// Space, tab, line feed or carriage return.
pub open spec fn is_space(c: u8) -> bool {
    c == 0x20u8 || c == 0x09u8 || c == 0x0au8 || c == 0x0du8
}

pub open spec fn is_digit(c: u8) -> bool {
    0x30u8 <= c <= 0x39u8
}

/// The text without its leading run of whitespace.
pub open spec fn skip_space(s: Seq<u8>) -> Seq<u8>
    decreases s.len(),
{
    if s.len() > 0 && is_space(s[0]) {
        skip_space(s.drop_first())
    } else {
        s
    }
}

/// The length of the leading run of decimal digits.
pub open spec fn digit_count(s: Seq<u8>) -> nat
    decreases s.len(),
{
    if s.len() > 0 && is_digit(s[0]) {
        1 + digit_count(s.drop_first())
    } else {
        0
    }
}

/// The base-ten value of a run of digits.
pub open spec fn digits_value(d: Seq<u8>) -> int
    decreases d.len(),
{
    if d.len() == 0 {
        0
    } else {
        10 * digits_value(d.drop_last()) + (d.last() - 0x30u8)
    }
}

/// Whether `s` starts with the byte `c`.
pub open spec fn starts_with(s: Seq<u8>, c: u8) -> bool {
    s.len() > 0 && s[0] == c
}

// Each grammar level maps the unparsed text to the text left after it and the
// tree it recognised, or to `None` where the text does not fit the grammar.
// Every remainder is a suffix of the text given; the length tests before each
// recursive call state this where the recursion needs it.

/// A literal that fits in `i32`, or `(` expression `)`. After a run of digits
/// too large for `i32` the `(` must follow at once.
pub open spec fn brackets_syntax(s: Seq<u8>) -> Option<(Seq<u8>, ExprBrackets)>
    decreases s.len(), 0nat,
{
    let t = skip_space(s);
    let n = digit_count(t);
    let u = t.skip(n as int);
    if n > 0 && digits_value(t.take(n as int)) <= i32::MAX {
        Some((u, ExprBrackets::Literal(digits_value(t.take(n as int)) as i32)))
    } else if starts_with(u, OPEN) && u.len() <= s.len() {
        match add_sub_syntax(u.drop_first()) {
            Some((v, e)) => {
                let w = skip_space(v);
                if starts_with(w, CLOSE) {
                    Some((w.drop_first(), ExprBrackets::Sub(Box::new(e))))
                } else {
                    None
                }
            },
            None => None,
        }
    } else {
        None
    }
}

/// An operand, then optionally `^` and another power chain.
pub open spec fn power_syntax(s: Seq<u8>) -> Option<(Seq<u8>, ExprPower)>
    decreases s.len(), 1nat,
{
    match brackets_syntax(s) {
        Some((r, b)) => {
            let t = skip_space(r);
            if starts_with(t, CARET) && t.len() <= s.len() {
                match power_syntax(t.drop_first()) {
                    Some((v, p)) => Some((v, ExprPower::Exp(Box::new(p), b))),
                    None => None,
                }
            } else {
                Some((t, ExprPower::Value(b)))
            }
        },
        None => None,
    }
}

/// A power chain, then optionally `*` or `/` and another product chain.
pub open spec fn mul_div_syntax(s: Seq<u8>) -> Option<(Seq<u8>, ExprMulDiv)>
    decreases s.len(), 2nat,
{
    match power_syntax(s) {
        Some((r, p)) => {
            let t = skip_space(r);
            if (starts_with(t, STAR) || starts_with(t, SLASH)) && t.len() <= s.len() {
                match mul_div_syntax(t.drop_first()) {
                    Some((v, m)) => Some(
                        (
                            v,
                            if t[0] == STAR {
                                ExprMulDiv::Mul(Box::new(m), p)
                            } else {
                                ExprMulDiv::Div(Box::new(m), p)
                            },
                        ),
                    ),
                    None => None,
                }
            } else {
                Some((t, ExprMulDiv::Power(p)))
            }
        },
        None => None,
    }
}

/// A product chain, then optionally `+` or `-` and another sum chain.
pub open spec fn add_sub_syntax(s: Seq<u8>) -> Option<(Seq<u8>, ExprAddSub)>
    decreases s.len(), 3nat,
{
    match mul_div_syntax(s) {
        Some((r, m)) => {
            let t = skip_space(r);
            if (starts_with(t, PLUS) || starts_with(t, MINUS)) && t.len() <= s.len() {
                match add_sub_syntax(t.drop_first()) {
                    Some((v, a)) => Some(
                        (
                            v,
                            if t[0] == PLUS {
                                ExprAddSub::Add(Box::new(a), m)
                            } else {
                                ExprAddSub::Sub(Box::new(a), m)
                            },
                        ),
                    ),
                    None => None,
                }
            } else {
                Some((t, ExprAddSub::MulDiv(m)))
            }
        },
        None => None,
    }
}

pub proof fn lemma_skip_space_len(s: Seq<u8>)
    ensures
        skip_space(s).len() <= s.len(),
    decreases s.len(),
{
    if s.len() > 0 && is_space(s[0]) {
        lemma_skip_space_len(s.drop_first());
    }
}

pub proof fn lemma_digit_count_len(s: Seq<u8>)
    ensures
        digit_count(s) <= s.len(),
    decreases s.len(),
{
    if s.len() > 0 && is_digit(s[0]) {
        lemma_digit_count_len(s.drop_first());
    }
}

/// No grammar level leaves more text than it was given.
pub proof fn lemma_brackets_shrink(s: Seq<u8>)
    ensures
        brackets_syntax(s) matches Some((r, _)) ==> r.len() <= s.len(),
    decreases s.len(), 0nat,
{
    let t = skip_space(s);
    lemma_skip_space_len(s);
    lemma_digit_count_len(t);
    let u = t.skip(digit_count(t) as int);
    if starts_with(u, OPEN) && u.len() <= s.len() {
        lemma_add_sub_shrink(u.drop_first());
        if let Some((v, _)) = add_sub_syntax(u.drop_first()) {
            lemma_skip_space_len(v);
        }
    }
}

pub proof fn lemma_power_shrink(s: Seq<u8>)
    ensures
        power_syntax(s) matches Some((r, _)) ==> r.len() <= s.len(),
    decreases s.len(), 1nat,
{
    lemma_brackets_shrink(s);
    if let Some((r, _)) = brackets_syntax(s) {
        let t = skip_space(r);
        lemma_skip_space_len(r);
        if starts_with(t, CARET) && t.len() <= s.len() {
            lemma_power_shrink(t.drop_first());
        }
    }
}

pub proof fn lemma_mul_div_shrink(s: Seq<u8>)
    ensures
        mul_div_syntax(s) matches Some((r, _)) ==> r.len() <= s.len(),
    decreases s.len(), 2nat,
{
    lemma_power_shrink(s);
    if let Some((r, _)) = power_syntax(s) {
        let t = skip_space(r);
        lemma_skip_space_len(r);
        if (starts_with(t, STAR) || starts_with(t, SLASH)) && t.len() <= s.len() {
            lemma_mul_div_shrink(t.drop_first());
        }
    }
}

pub proof fn lemma_add_sub_shrink(s: Seq<u8>)
    ensures
        add_sub_syntax(s) matches Some((r, _)) ==> r.len() <= s.len(),
    decreases s.len(), 3nat,
{
    lemma_mul_div_shrink(s);
    if let Some((r, _)) = mul_div_syntax(s) {
        let t = skip_space(r);
        lemma_skip_space_len(r);
        if (starts_with(t, PLUS) || starts_with(t, MINUS)) && t.len() <= s.len() {
            lemma_add_sub_shrink(t.drop_first());
        }
    }
}

/// An executable parse from byte `pos` agrees with the grammar level's result
/// `expected` on the text from `pos`: the same tree, and the byte where the
/// remainder starts.
pub open spec fn agrees<T>(input: Seq<u8>, pos: int, r: Option<(usize, T)>, expected: Option<(Seq<u8>, T)>) -> bool {
    match r {
        Some((q, e)) => pos <= q <= input.len() && expected == Some((tail(input, q as int), e)),
        None => expected is None,
    }
}

/// The first byte at or after `pos` that is not whitespace.
fn skip_space_at(input: &[u8], pos: usize) -> (q: usize)
    requires
        pos <= input@.len(),
    ensures
        pos <= q <= input@.len(),
        tail(input@, q as int) == skip_space(tail(input@, pos as int)),
{
    let mut q = pos;
    while q < input.len() && (input[q] == 0x20u8 || input[q] == 0x09u8 || input[q] == 0x0au8 || input[q] == 0x0du8)
        invariant
            pos <= q <= input@.len(),
            skip_space(tail(input@, q as int)) == skip_space(tail(input@, pos as int)),
        decreases input@.len() - q,
    {
        assert(tail(input@, q as int).drop_first() =~= tail(input@, (q + 1) as int));
        q = q + 1;
    }
    q
}

pub proof fn lemma_digits_value_nonneg(d: Seq<u8>)
    requires
        forall|i: int| 0 <= i < d.len() ==> is_digit(#[trigger] d[i]),
    ensures
        digits_value(d) >= 0,
    decreases d.len(),
{
    if d.len() > 0 {
        lemma_digits_value_nonneg(d.drop_last());
    }
}

/// Scans the run of digits at `pos`: returns where it ends, and its value
/// when the run is not empty and its value fits in `i32`.
fn scan_literal(input: &[u8], pos: usize) -> (r: (usize, Option<i32>))
    requires
        pos <= input@.len(),
    ensures
        r.0 == pos + digit_count(tail(input@, pos as int)),
        r.0 <= input@.len(),
        ({
            let d = tail(input@, pos as int).take(digit_count(tail(input@, pos as int)) as int);
            r.1 == if d.len() > 0 && digits_value(d) <= i32::MAX {
                Some(digits_value(d) as i32)
            } else {
                None::<i32>
            }
        }),
{
    let mut q = pos;
    let mut value: i32 = 0;
    let mut fits = true;
    while q < input.len() && 0x30u8 <= input[q] && input[q] <= 0x39u8
        invariant
            pos <= q <= input@.len(),
            forall|i: int| pos <= i < q ==> is_digit(#[trigger] input@[i]),
            digit_count(tail(input@, pos as int)) == (q - pos) + digit_count(tail(input@, q as int)),
            fits ==> value >= 0 && value as int == digits_value(input@.subrange(pos as int, q as int)),
            !fits ==> digits_value(input@.subrange(pos as int, q as int)) > i32::MAX,
        decreases input@.len() - q,
    {
        let ghost before = input@.subrange(pos as int, q as int);
        let ghost after = input@.subrange(pos as int, q + 1);
        proof {
            assert(tail(input@, q as int).drop_first() =~= tail(input@, (q + 1) as int));
            assert(after.drop_last() =~= before);
            lemma_digits_value_nonneg(before);
        }
        let digit = input[q] - 0x30u8;
        if fits {
            let next: i64 = value as i64 * 10 + digit as i64;
            if next > i32::MAX as i64 {
                fits = false;
            } else {
                value = next as i32;
            }
        }
        q = q + 1;
    }
    proof {
        assert(tail(input@, pos as int).take((q - pos) as int) =~= input@.subrange(pos as int, q as int));
    }
    if q > pos && fits {
        (q, Some(value))
    } else {
        (q, None)
    }
}

impl ExprBrackets {
    /// Parses a literal or a parenthesised expression from byte `pos`.
    pub fn parse_at(input: &[u8], pos: usize) -> (r: Option<(usize, ExprBrackets)>)
        requires
            pos <= input@.len(),
        ensures
            agrees(input@, pos as int, r, brackets_syntax(tail(input@, pos as int))),
        decreases input@.len() - pos, 0nat,
    {
        let t = skip_space_at(input, pos);
        let (u, literal) = scan_literal(input, t);
        proof {
            let n = digit_count(tail(input@, t as int));
            assert(tail(input@, t as int).skip(n as int) =~= tail(input@, u as int));
        }
        if let Some(n) = literal {
            return Some((u, ExprBrackets::Literal(n)));
        }
        if u < input.len() && input[u] == OPEN {
            proof {
                assert(tail(input@, u as int).drop_first() =~= tail(input@, u + 1));
            }
            match ExprAddSub::parse_at(input, u + 1) {
                Some((v, e)) => {
                    let w = skip_space_at(input, v);
                    if w < input.len() && input[w] == CLOSE {
                        proof {
                            assert(tail(input@, w as int).drop_first() =~= tail(input@, w + 1));
                        }
                        Some((w + 1, ExprBrackets::Sub(Box::new(e))))
                    } else {
                        None
                    }
                },
                None => None,
            }
        } else {
            None
        }
    }
}

impl ExprPower {
    /// Parses a power chain from byte `pos`.
    pub fn parse_at(input: &[u8], pos: usize) -> (r: Option<(usize, ExprPower)>)
        requires
            pos <= input@.len(),
        ensures
            agrees(input@, pos as int, r, power_syntax(tail(input@, pos as int))),
        decreases input@.len() - pos, 1nat,
    {
        match ExprBrackets::parse_at(input, pos) {
            Some((q, b)) => {
                let t = skip_space_at(input, q);
                if t < input.len() && input[t] == CARET {
                    proof {
                        assert(tail(input@, t as int).drop_first() =~= tail(input@, t + 1));
                    }
                    match ExprPower::parse_at(input, t + 1) {
                        Some((v, p)) => Some((v, ExprPower::Exp(Box::new(p), b))),
                        None => None,
                    }
                } else {
                    Some((t, ExprPower::Value(b)))
                }
            },
            None => None,
        }
    }
}

impl ExprMulDiv {
    /// Parses a product chain from byte `pos`.
    pub fn parse_at(input: &[u8], pos: usize) -> (r: Option<(usize, ExprMulDiv)>)
        requires
            pos <= input@.len(),
        ensures
            agrees(input@, pos as int, r, mul_div_syntax(tail(input@, pos as int))),
        decreases input@.len() - pos, 2nat,
    {
        match ExprPower::parse_at(input, pos) {
            Some((q, p)) => {
                let t = skip_space_at(input, q);
                if t < input.len() && (input[t] == STAR || input[t] == SLASH) {
                    proof {
                        assert(tail(input@, t as int).drop_first() =~= tail(input@, t + 1));
                    }
                    match ExprMulDiv::parse_at(input, t + 1) {
                        Some((v, m)) => {
                            if input[t] == STAR {
                                Some((v, ExprMulDiv::Mul(Box::new(m), p)))
                            } else {
                                Some((v, ExprMulDiv::Div(Box::new(m), p)))
                            }
                        },
                        None => None,
                    }
                } else {
                    Some((t, ExprMulDiv::Power(p)))
                }
            },
            None => None,
        }
    }
}

impl ExprAddSub {
    /// Parses a sum chain from byte `pos`.
    pub fn parse_at(input: &[u8], pos: usize) -> (r: Option<(usize, ExprAddSub)>)
        requires
            pos <= input@.len(),
        ensures
            agrees(input@, pos as int, r, add_sub_syntax(tail(input@, pos as int))),
        decreases input@.len() - pos, 3nat,
    {
        match ExprMulDiv::parse_at(input, pos) {
            Some((q, m)) => {
                let t = skip_space_at(input, q);
                if t < input.len() && (input[t] == PLUS || input[t] == MINUS) {
                    proof {
                        assert(tail(input@, t as int).drop_first() =~= tail(input@, t + 1));
                    }
                    match ExprAddSub::parse_at(input, t + 1) {
                        Some((v, a)) => {
                            if input[t] == PLUS {
                                Some((v, ExprAddSub::Add(Box::new(a), m)))
                            } else {
                                Some((v, ExprAddSub::Sub(Box::new(a), m)))
                            }
                        },
                        None => None,
                    }
                } else {
                    Some((t, ExprAddSub::MulDiv(m)))
                }
            },
            None => None,
        }
    }

    /// Parses an expression from the start of `s`; returns the byte where the
    /// unparsed remainder starts, and the tree.
    pub fn parse(s: &str) -> (r: Option<(usize, ExprAddSub)>)
        ensures
            agrees(s.spec_bytes(), 0, r, add_sub_syntax(s.spec_bytes())),
    {
        let input = s.as_bytes();
        proof {
            assert(tail(input@, 0) =~= input@);
        }
        ExprAddSub::parse_at(input, 0)
    }
}

} // verus!
