//! Parses and evaluates integer arithmetic expressions built from literals,
//! parentheses and the operators `+ - * / ^`.
use vstd::prelude::*;
use vstd::string::StringSliceAdditionalSpecFns;

pub mod grammar;
pub mod laws;
pub mod power;
pub mod spacing;
pub mod syntax;

use grammar::add_sub_syntax;
pub use syntax::{ExprAddSub, ExprBrackets, ExprMulDiv, ExprPower};

verus! {

/// The result of evaluating the text `s`: `None` where it does not fit the
/// grammar, or where evaluation meets an arithmetic fault. Text after the
/// recognised expression is ignored.
pub open spec fn evaluate(s: Seq<u8>) -> Option<i32> {
    match add_sub_syntax(s) {
        Some((_, e)) => e.value(),
        None => None,
    }
}

/// Evaluates the expression at the start of `s`.
pub fn math_parse(s: &str) -> (r: Option<i32>)
    ensures
        r == evaluate(s.spec_bytes()),
{
    match ExprAddSub::parse(s) {
        Some((_, e)) => e.try_calc(),
        None => None,
    }
}

} // verus!
