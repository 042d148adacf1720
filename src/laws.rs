use vstd::prelude::*;

use crate::evaluate;
use crate::grammar::{
    add_sub_syntax, brackets_syntax, digit_count, digits_value, is_digit, is_space,
    lemma_brackets_shrink, lemma_digit_count_len, lemma_mul_div_shrink, lemma_power_shrink,
    lemma_digits_value_nonneg, lemma_skip_space_len, mul_div_syntax, power_syntax, skip_space,
};
use crate::syntax::{ExprAddSub, ExprBrackets, ExprMulDiv, ExprPower};

verus! {

/// Evaluation depends on the text alone: evaluating the same text twice gives
/// the same result.
pub proof fn evaluation_is_repeatable(s: Seq<u8>, first: Option<i32>, second: Option<i32>)
    requires
        first == evaluate(s),
        second == evaluate(s),
    ensures
        first == second,
{
}

/// Whitespace in front of an operand is ignored: every grammar level, and so
/// every operand that follows an operator or a `(`, reads the text with one
/// more leading whitespace byte exactly as it reads the text without it.
pub proof fn space_before_operand_is_ignored(c: u8, s: Seq<u8>)
    requires
        is_space(c),
    ensures
        brackets_syntax(seq![c] + s) == brackets_syntax(s),
        power_syntax(seq![c] + s) == power_syntax(s),
        mul_div_syntax(seq![c] + s) == mul_div_syntax(s),
        add_sub_syntax(seq![c] + s) == add_sub_syntax(s),
{
    let x = seq![c] + s;
    assert(x.drop_first() =~= s);
    assert(skip_space(x) == skip_space(s));
    let t = skip_space(s);
    lemma_skip_space_len(s);
    lemma_digit_count_len(t);
    assert(brackets_syntax(x) == brackets_syntax(s));
    lemma_brackets_shrink(s);
    if let Some((r, _)) = brackets_syntax(s) {
        lemma_skip_space_len(r);
    }
    assert(power_syntax(x) == power_syntax(s));
    lemma_power_shrink(s);
    if let Some((r, _)) = power_syntax(s) {
        lemma_skip_space_len(r);
    }
    assert(mul_div_syntax(x) == mul_div_syntax(s));
    lemma_mul_div_shrink(s);
    if let Some((r, _)) = mul_div_syntax(s) {
        lemma_skip_space_len(r);
    }
    assert(add_sub_syntax(x) == add_sub_syntax(s));
}

/// Leading whitespace never changes the result of an evaluation.
pub proof fn leading_space_is_ignored(c: u8, s: Seq<u8>)
    requires
        is_space(c),
    ensures
        evaluate(seq![c] + s) == evaluate(s),
{
    space_before_operand_is_ignored(c, s);
}

proof fn lemma_all_digits_count(s: Seq<u8>)
    requires
        forall|i: int| 0 <= i < s.len() ==> is_digit(#[trigger] s[i]),
    ensures
        digit_count(s) == s.len(),
    decreases s.len(),
{
    if s.len() > 0 {
        lemma_all_digits_count(s.drop_first());
    }
}

/// A text of decimal digits alone whose value fits in `i32` evaluates to that
/// value.
pub proof fn digits_evaluate_to_their_value(s: Seq<u8>)
    requires
        s.len() > 0,
        forall|i: int| 0 <= i < s.len() ==> is_digit(#[trigger] s[i]),
        digits_value(s) <= i32::MAX,
    ensures
        evaluate(s) == Some(digits_value(s) as i32),
{
    let empty = Seq::<u8>::empty();
    lemma_digits_value_nonneg(s);
    assert(is_digit(s[0]));
    assert(skip_space(s) == s);
    lemma_all_digits_count(s);
    assert(s.take(s.len() as int) =~= s);
    assert(s.skip(s.len() as int) =~= empty);
    let b = ExprBrackets::Literal(digits_value(s) as i32);
    assert(brackets_syntax(s) == Some((empty, b)));
    assert(skip_space(empty) == empty);
    let p = ExprPower::Value(b);
    assert(power_syntax(s) == Some((empty, p)));
    let m = ExprMulDiv::Power(p);
    assert(mul_div_syntax(s) == Some((empty, m)));
    assert(add_sub_syntax(s) == Some((empty, ExprAddSub::MulDiv(m))));
    assert(b.value() == Some(digits_value(s) as i32));
    assert(p.value() == b.value());
    assert(m.value() == p.value());
    assert(ExprAddSub::MulDiv(m).value() == m.value());
}

} // verus!
