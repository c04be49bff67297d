//! The values that expressions have, and how an expression is evaluated.

use crate::ast::{AstView, AST, OP};
use vstd::prelude::*;

verus! {

/// A value with its type.
#[derive(Debug, PartialEq)]
pub enum Value {
    Int(i32),
    StrLiteral(String),
    Bool(bool),
}

/// What a [`Value`] stands for.
pub ghost enum ValueView {
    Int(i32),
    StrLiteral(Seq<char>),
    Bool(bool),
}

impl View for Value {
    type V = ValueView;

    open spec fn view(&self) -> ValueView {
        match self {
            Value::Int(n) => ValueView::Int(*n),
            Value::StrLiteral(s) => ValueView::StrLiteral(s@),
            Value::Bool(b) => ValueView::Bool(*b),
        }
    }
}

impl DeepView for Value {
    type V = ValueView;

    open spec fn deep_view(&self) -> ValueView {
        self.view()
    }
}

/// Why a tree has no value.
#[derive(Debug, PartialEq, Eq, Clone, Copy, Structural)]
pub enum EvalError {
    /// The operator is not defined on operands of these types.
    UnsupportedOperation,
    /// The result of an operation does not fit in 32 signed bits.
    Overflow,
    /// The tree is a statement, which has no value.
    NotAnExpression,
}

/// The integer `n` as a value, if it fits in 32 signed bits.
pub open spec fn int_value(n: int) -> Result<ValueView, EvalError> {
    if i32::MIN <= n <= i32::MAX {
        Ok(ValueView::Int(n as i32))
    } else {
        Err(EvalError::Overflow)
    }
}

/// The value of `op` applied to two values.
///
/// Sum, difference, product and equality are defined on two integers, and
/// nothing else is.
pub open spec fn apply(left: ValueView, op: OP, right: ValueView) -> Result<ValueView, EvalError> {
    match (left, op, right) {
        (ValueView::Int(a), OP::Add, ValueView::Int(b)) => int_value(a + b),
        (ValueView::Int(a), OP::Minus, ValueView::Int(b)) => int_value(a - b),
        (ValueView::Int(a), OP::Mul, ValueView::Int(b)) => int_value(a * b),
        (ValueView::Int(a), OP::EqEq, ValueView::Int(b)) => Ok(ValueView::Bool(a == b)),
        _ => Err(EvalError::UnsupportedOperation),
    }
}

/// The value of a tree.
///
/// Both operands of an operator are evaluated, the left one first, and then
/// combined.
pub open spec fn eval(tree: AstView) -> Result<ValueView, EvalError>
    decreases tree,
{
    match tree {
        AstView::Number(n) => Ok(ValueView::Int(n)),
        AstView::StrLiteral(s) => Ok(ValueView::StrLiteral(s)),
        AstView::BinOP(left, op, right) => match eval(*left) {
            Err(e) => Err(e),
            Ok(a) => match eval(*right) {
                Err(e) => Err(e),
                Ok(b) => apply(a, op, b),
            },
        },
        _ => Err(EvalError::NotAnExpression),
    }
}

/// What the outcome of an evaluation stands for.
pub open spec fn value_outcome<T: DeepView>(result: Result<T, EvalError>) -> Result<
    T::V,
    EvalError,
> {
    match result {
        Ok(value) => Ok(value.deep_view()),
        Err(e) => Err(e),
    }
}

impl Value {
    /// Applies `op` to two values.
    pub fn combine(left: Value, op: OP, right: Value) -> (result: Result<Value, EvalError>)
        ensures
            value_outcome(result) == apply(left@, op, right@),
    {
        match (left, op, right) {
            (Value::Int(a), OP::Add, Value::Int(b)) => match a.checked_add(b) {
                Some(n) => Ok(Value::Int(n)),
                None => Err(EvalError::Overflow),
            },
            (Value::Int(a), OP::Minus, Value::Int(b)) => match a.checked_sub(b) {
                Some(n) => Ok(Value::Int(n)),
                None => Err(EvalError::Overflow),
            },
            (Value::Int(a), OP::Mul, Value::Int(b)) => match a.checked_mul(b) {
                Some(n) => Ok(Value::Int(n)),
                None => Err(EvalError::Overflow),
            },
            (Value::Int(a), OP::EqEq, Value::Int(b)) => Ok(Value::Bool(a == b)),
            _ => Err(EvalError::UnsupportedOperation),
        }
    }

    /// Evaluates a tree.
    pub fn eval_ast(tree: AST) -> (result: Result<Value, EvalError>)
        ensures
            value_outcome(result) == eval(tree@),
        decreases tree,
    {
        match tree {
            AST::Number(n) => Ok(Value::Int(n)),
            AST::StrLiteral(s) => Ok(Value::StrLiteral(s)),
            AST::BinOP(left, op, right) => {
                let a = match Self::eval_ast(*left) {
                    Ok(value) => value,
                    Err(e) => return Err(e),
                };
                let b = match Self::eval_ast(*right) {
                    Ok(value) => value,
                    Err(e) => return Err(e),
                };
                Self::combine(a, op, b)
            },
            _ => Err(EvalError::NotAnExpression),
        }
    }
}

} // verus!
