use vstd::prelude::*;

use crate::evaluate;
use crate::grammar::{
    add_sub_syntax, brackets_syntax, digit_count, is_digit, is_space, lemma_add_sub_shrink,
    lemma_brackets_shrink, lemma_digit_count_len, lemma_mul_div_shrink, lemma_power_shrink,
    lemma_skip_space_len, mul_div_syntax, power_syntax, skip_space, starts_with, CARET,
    MINUS, OPEN, PLUS, SLASH, STAR,
};
use crate::laws::space_before_operand_is_ignored;

verus! {

pub open spec fn is_operator(b: u8) -> bool {
    b == PLUS || b == MINUS || b == STAR || b == SLASH || b == CARET
}

/// A byte beside which whitespace may be inserted: an operator or whitespace.
pub open spec fn is_soft(b: u8) -> bool {
    is_space(b) || is_operator(b)
}

/// `s` with the byte `c` inserted before index `j`.
pub open spec fn insert_at(s: Seq<u8>, j: int, c: u8) -> Seq<u8> {
    s.take(j) + seq![c] + s.skip(j)
}

/// Index `j` is the start of `s`, or has an operator or whitespace on one side.
pub open spec fn beside_soft(s: Seq<u8>, j: int) -> bool {
    0 <= j <= s.len() && (j == 0 || is_soft(s[j - 1]) || (j < s.len() && is_soft(s[j])))
}

/// `r2` is `r`, or `r` with the space `c` inserted at `o`, where `o` counts
/// from the start of `r` and is negative once the insertion lies behind it.
pub open spec fn related(r: Seq<u8>, r2: Seq<u8>, o: int, c: u8) -> bool {
    ||| (o <= 0 && r2 == r)
    ||| (0 <= o <= r.len() && r2 == insert_at(r, o, c) && beside_soft(r, o))
}

/// Two results of one grammar level agree: both fail, or both give the same
/// tree with related remainders.
pub open spec fn agree<T>(
    a: Option<(Seq<u8>, T)>,
    b: Option<(Seq<u8>, T)>,
    s: Seq<u8>,
    o: int,
    c: u8,
) -> bool {
    match (a, b) {
        (None, None) => true,
        (Some((r, e)), Some((r2, e2))) => e == e2 && related(r, r2, o - (s.len() - r.len()), c),
        _ => false,
    }
}

proof fn lemma_drop_first(t: Seq<u8>, o: int, c: u8)
    requires
        1 <= o <= t.len(),
        beside_soft(t, o),
    ensures
        insert_at(t, o, c).len() > 0,
        insert_at(t, o, c)[0] == t[0],
        insert_at(t, o, c).drop_first() == insert_at(t.drop_first(), o - 1, c),
        beside_soft(t.drop_first(), o - 1),
{
    assert(insert_at(t, o, c).drop_first() =~= insert_at(t.drop_first(), o - 1, c));
}

proof fn lemma_skip_space_related(r: Seq<u8>, r2: Seq<u8>, o: int, c: u8)
    requires
        is_space(c),
        related(r, r2, o, c),
    ensures
        ({
            let t = skip_space(r);
            let t2 = skip_space(r2);
            let o2 = o - (r.len() - t.len());
            ||| (o2 <= 0 && t2 == t)
            ||| (0 < o2 <= t.len() && t2 == insert_at(t, o2, c) && beside_soft(t, o2))
        }),
        skip_space(r).len() <= r.len(),
    decreases r.len(),
{
    lemma_skip_space_len(r);
    if r2 == r && o <= 0 {
    } else if o == 0 {
        assert(r2.drop_first() =~= r);
    } else if is_space(r[0]) {
        lemma_drop_first(r, o, c);
        lemma_skip_space_related(r.drop_first(), r2.drop_first(), o - 1, c);
    } else {
        assert(r2[0] == r[0]);
    }
}

proof fn lemma_digits_prefix(t: Seq<u8>, i: int)
    requires
        0 <= i < digit_count(t),
    ensures
        i < t.len(),
        is_digit(t[i]),
    decreases t.len(),
{
    if i > 0 {
        lemma_digits_prefix(t.drop_first(), i - 1);
    }
}

proof fn lemma_digit_count_insert(t: Seq<u8>, o: int, c: u8)
    requires
        is_space(c),
        digit_count(t) <= o <= t.len(),
    ensures
        digit_count(insert_at(t, o, c)) == digit_count(t),
    decreases t.len(),
{
    let t2 = insert_at(t, o, c);
    if o == 0 {
        assert(t2[0] == c);
    } else {
        assert(t2[0] == t[0]);
        assert(t2.drop_first() =~= insert_at(t.drop_first(), o - 1, c));
        if is_digit(t[0]) {
            lemma_digit_count_insert(t.drop_first(), o - 1, c);
        }
    }
}

proof fn lemma_skip_space_idem(s: Seq<u8>)
    ensures
        skip_space(skip_space(s)) == skip_space(s),
    decreases s.len(),
{
    if s.len() > 0 && is_space(s[0]) {
        lemma_skip_space_idem(s.drop_first());
    }
}

proof fn lemma_brackets_related(s: Seq<u8>, s2: Seq<u8>, o: int, c: u8)
    requires
        is_space(c),
        related(s, s2, o, c),
    ensures
        agree(brackets_syntax(s), brackets_syntax(s2), s, o, c),
    decreases s.len(), 0nat,
{
    lemma_brackets_shrink(s);
    if s2 == s && o <= 0 {
    } else if o == 0 {
        assert(s2 =~= seq![c] + s);
        space_before_operand_is_ignored(c, s);
    } else {
        let t = skip_space(s);
        let t2 = skip_space(s2);
        lemma_skip_space_related(s, s2, o, c);
        lemma_skip_space_len(s);
        lemma_skip_space_len(s2);
        let ot = o - (s.len() - t.len());
        let n = digit_count(t);
        lemma_digit_count_len(t);
        let u = t.skip(n as int);
        if t2 == t {
            lemma_skip_space_idem(s);
            lemma_brackets_shrink(t);
            assert(brackets_syntax(s) == brackets_syntax(t));
            assert(brackets_syntax(s2) == brackets_syntax(t));
        } else {
            if ot < n {
                lemma_digits_prefix(t, ot - 1);
                lemma_digits_prefix(t, ot);
            }
            lemma_digit_count_insert(t, ot, c);
            assert(t2.take(n as int) =~= t.take(n as int));
            let ou = ot - n;
            let u2 = t2.skip(n as int);
            assert(u2 =~= insert_at(u, ou, c));
            if ou > 0 {
                assert(u[ou - 1] == t[ot - 1]);
                if ou < u.len() {
                    assert(u[ou] == t[ot]);
                }
            }
            if ou == 0 && starts_with(u, OPEN) {
                lemma_digits_prefix(t, ot - 1);
                assert(t[ot] == u[0]);
            }
            if ou > 0 && starts_with(u, OPEN) {
                lemma_drop_first(u, ou, c);
                let inner = u.drop_first();
                let inner2 = u2.drop_first();
                lemma_add_sub_related(inner, inner2, ou - 1, c);
                lemma_add_sub_shrink(inner);
                if let Some((v, _)) = add_sub_syntax(inner) {
                    let ov = (ou - 1) - (inner.len() - v.len());
                    if let Some((v2, _)) = add_sub_syntax(inner2) {
                        lemma_skip_space_related(v, v2, ov, c);
                        let w = skip_space(v);
                        let ow = ov - (v.len() - w.len());
                        if skip_space(v2) != w {
                            lemma_drop_first(w, ow, c);
                        }
                    }
                }
            }
        }
    }
}

proof fn lemma_power_related(s: Seq<u8>, s2: Seq<u8>, o: int, c: u8)
    requires
        is_space(c),
        related(s, s2, o, c),
    ensures
        agree(power_syntax(s), power_syntax(s2), s, o, c),
    decreases s.len(), 1nat,
{
    lemma_power_shrink(s);
    if s2 == s && o <= 0 {
    } else if o == 0 {
        assert(s2 =~= seq![c] + s);
        space_before_operand_is_ignored(c, s);
    } else {
        lemma_brackets_related(s, s2, o, c);
        lemma_brackets_shrink(s);
        lemma_brackets_shrink(s2);
        if let Some((r, _)) = brackets_syntax(s) {
            if let Some((r2, _)) = brackets_syntax(s2) {
                let or = o - (s.len() - r.len());
                lemma_skip_space_related(r, r2, or, c);
                lemma_skip_space_len(r2);
                let t = skip_space(r);
                let ot = or - (r.len() - t.len());
                if skip_space(r2) == t {
                    if starts_with(t, CARET) {
                        lemma_power_shrink(t.drop_first());
                    }
                } else {
                    lemma_drop_first(t, ot, c);
                    if starts_with(t, CARET) {
                        lemma_power_related(t.drop_first(), skip_space(r2).drop_first(), ot - 1, c);
                    }
                }
            }
        }
    }
}

proof fn lemma_mul_div_related(s: Seq<u8>, s2: Seq<u8>, o: int, c: u8)
    requires
        is_space(c),
        related(s, s2, o, c),
    ensures
        agree(mul_div_syntax(s), mul_div_syntax(s2), s, o, c),
    decreases s.len(), 2nat,
{
    lemma_mul_div_shrink(s);
    if s2 == s && o <= 0 {
    } else if o == 0 {
        assert(s2 =~= seq![c] + s);
        space_before_operand_is_ignored(c, s);
    } else {
        lemma_power_related(s, s2, o, c);
        lemma_power_shrink(s);
        lemma_power_shrink(s2);
        if let Some((r, _)) = power_syntax(s) {
            if let Some((r2, _)) = power_syntax(s2) {
                let or = o - (s.len() - r.len());
                lemma_skip_space_related(r, r2, or, c);
                lemma_skip_space_len(r2);
                let t = skip_space(r);
                let ot = or - (r.len() - t.len());
                let op = starts_with(t, STAR) || starts_with(t, SLASH);
                if skip_space(r2) == t {
                    if op {
                        lemma_mul_div_shrink(t.drop_first());
                    }
                } else {
                    lemma_drop_first(t, ot, c);
                    if op {
                        lemma_mul_div_related(t.drop_first(), skip_space(r2).drop_first(), ot - 1, c);
                    }
                }
            }
        }
    }
}

proof fn lemma_add_sub_related(s: Seq<u8>, s2: Seq<u8>, o: int, c: u8)
    requires
        is_space(c),
        related(s, s2, o, c),
    ensures
        agree(add_sub_syntax(s), add_sub_syntax(s2), s, o, c),
    decreases s.len(), 3nat,
{
    lemma_add_sub_shrink(s);
    if s2 == s && o <= 0 {
    } else if o == 0 {
        assert(s2 =~= seq![c] + s);
        space_before_operand_is_ignored(c, s);
    } else {
        lemma_mul_div_related(s, s2, o, c);
        lemma_mul_div_shrink(s);
        lemma_mul_div_shrink(s2);
        if let Some((r, _)) = mul_div_syntax(s) {
            if let Some((r2, _)) = mul_div_syntax(s2) {
                let or = o - (s.len() - r.len());
                lemma_skip_space_related(r, r2, or, c);
                lemma_skip_space_len(r2);
                let t = skip_space(r);
                let ot = or - (r.len() - t.len());
                let op = starts_with(t, PLUS) || starts_with(t, MINUS);
                if skip_space(r2) == t {
                    if op {
                        lemma_add_sub_shrink(t.drop_first());
                    }
                } else {
                    lemma_drop_first(t, ot, c);
                    if op {
                        lemma_add_sub_related(t.drop_first(), skip_space(r2).drop_first(), ot - 1, c);
                    }
                }
            }
        }
    }
}

/// Whitespace beside an operator never changes the result: inserting a
/// whitespace byte at the start of the text, or next to an operator or to
/// other whitespace, leaves the evaluation as it was.
pub proof fn space_beside_operator_is_ignored(s: Seq<u8>, j: int, c: u8)
    requires
        is_space(c),
        beside_soft(s, j),
    ensures
        evaluate(insert_at(s, j, c)) == evaluate(s),
{
    lemma_add_sub_related(s, insert_at(s, j, c), j, c);
}

} // verus!
