use vstd::prelude::*;

use crate::power::{checked_power, power};

verus! {

/// A chain of additions and subtractions: the first operand, then the rest of
/// the chain parsed to its right.
pub enum ExprAddSub {
    MulDiv(ExprMulDiv),
    Add(Box<ExprAddSub>, ExprMulDiv),
    Sub(Box<ExprAddSub>, ExprMulDiv),
}

/// A chain of multiplications and divisions, laid out as `ExprAddSub`.
pub enum ExprMulDiv {
    Power(ExprPower),
    Mul(Box<ExprMulDiv>, ExprPower),
    Div(Box<ExprMulDiv>, ExprPower),
}

/// A chain of exponentiations: `Exp(rest, base)` raises `base` to `rest`.
pub enum ExprPower {
    Value(ExprBrackets),
    Exp(Box<ExprPower>, ExprBrackets),
}

/// A literal or a parenthesised expression.
pub enum ExprBrackets {
    Literal(i32),
    Sub(Box<ExprAddSub>),
}

/// Combines two evaluated operands, propagating a fault in either.
pub open spec fn both(a: Option<i32>, b: Option<i32>, f: spec_fn(i32, i32) -> Option<i32>) -> Option<i32> {
    match (a, b) {
        (Some(x), Some(y)) => f(x, y),
        _ => None,
    }
}

impl ExprAddSub {
    /// The value of the expression; `None` on overflow, division by zero or
    /// zero raised to a negative power. The operand written first is the left
    /// operand, the rest of the chain the right one.
    pub open spec fn value(&self) -> Option<i32>
        decreases self,
    {
        match self {
            ExprAddSub::MulDiv(m) => m.value(),
            ExprAddSub::Add(rest, m) => both(m.value(), rest.value(), |x: i32, y: i32| x.checked_add(y)),
            ExprAddSub::Sub(rest, m) => both(m.value(), rest.value(), |x: i32, y: i32| x.checked_sub(y)),
        }
    }

    /// Evaluates the expression, reporting an arithmetic fault as `None`.
    pub fn try_calc(&self) -> (r: Option<i32>)
        ensures
            r == self.value(),
        decreases self,
    {
        match self {
            ExprAddSub::MulDiv(m) => m.try_calc(),
            ExprAddSub::Add(rest, m) => match (m.try_calc(), rest.try_calc()) {
                (Some(x), Some(y)) => x.checked_add(y),
                _ => None,
            },
            ExprAddSub::Sub(rest, m) => match (m.try_calc(), rest.try_calc()) {
                (Some(x), Some(y)) => x.checked_sub(y),
                _ => None,
            },
        }
    }

    /// Evaluates an expression that is free of arithmetic faults.
    pub fn calc(self) -> (r: i32)
        requires
            self.value() is Some,
        ensures
            self.value() == Some(r),
    {
        match self.try_calc() {
            Some(v) => v,
            None => 0,
        }
    }
}

impl ExprMulDiv {
    /// The value of the product chain; division truncates toward zero.
    pub open spec fn value(&self) -> Option<i32>
        decreases self,
    {
        match self {
            ExprMulDiv::Power(p) => p.value(),
            ExprMulDiv::Mul(rest, p) => both(p.value(), rest.value(), |x: i32, y: i32| x.checked_mul(y)),
            ExprMulDiv::Div(rest, p) => both(p.value(), rest.value(), |x: i32, y: i32| x.checked_div(y)),
        }
    }

    pub fn try_calc(&self) -> (r: Option<i32>)
        ensures
            r == self.value(),
        decreases self,
    {
        match self {
            ExprMulDiv::Power(p) => p.try_calc(),
            ExprMulDiv::Mul(rest, p) => match (p.try_calc(), rest.try_calc()) {
                (Some(x), Some(y)) => x.checked_mul(y),
                _ => None,
            },
            ExprMulDiv::Div(rest, p) => match (p.try_calc(), rest.try_calc()) {
                (Some(x), Some(y)) => x.checked_div(y),
                _ => None,
            },
        }
    }

    pub fn calc(self) -> (r: i32)
        requires
            self.value() is Some,
        ensures
            self.value() == Some(r),
    {
        match self.try_calc() {
            Some(v) => v,
            None => 0,
        }
    }
}

impl ExprPower {
    /// The value of the power chain: the first operand is the base, the rest
    /// of the chain the exponent, so the chain groups to the right.
    pub open spec fn value(&self) -> Option<i32>
        decreases self,
    {
        match self {
            ExprPower::Value(b) => b.value(),
            ExprPower::Exp(rest, b) => both(b.value(), rest.value(), |x: i32, y: i32| power(x, y)),
        }
    }

    pub fn try_calc(&self) -> (r: Option<i32>)
        ensures
            r == self.value(),
        decreases self,
    {
        match self {
            ExprPower::Value(b) => b.try_calc(),
            ExprPower::Exp(rest, b) => match (b.try_calc(), rest.try_calc()) {
                (Some(x), Some(y)) => checked_power(x, y),
                _ => None,
            },
        }
    }

    pub fn calc(self) -> (r: i32)
        requires
            self.value() is Some,
        ensures
            self.value() == Some(r),
    {
        match self.try_calc() {
            Some(v) => v,
            None => 0,
        }
    }
}

impl ExprBrackets {
    pub open spec fn value(&self) -> Option<i32>
        decreases self,
    {
        match self {
            ExprBrackets::Literal(n) => Some(*n),
            ExprBrackets::Sub(e) => e.value(),
        }
    }

    pub fn try_calc(&self) -> (r: Option<i32>)
        ensures
            r == self.value(),
        decreases self,
    {
        match self {
            ExprBrackets::Literal(n) => Some(*n),
            ExprBrackets::Sub(e) => e.try_calc(),
        }
    }

    pub fn calc(self) -> (r: i32)
        requires
            self.value() is Some,
        ensures
            self.value() == Some(r),
    {
        match self.try_calc() {
            Some(v) => v,
            None => 0,
        }
    }
}

} // verus!
