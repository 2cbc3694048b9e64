//! The expression tree: literals, unary and binary operations, and groupings.
use vstd::prelude::*;

use crate::token::{Decimal, Token};

verus! {

/// An expression node; each composite node owns its operands.
#[derive(Debug, PartialEq)]
pub enum Expr {
    BooleanLiteral(bool),
    NumberLiteral(Decimal),
    StringLiteral(String),
    NilLiteral,
    Unary(UnaryExpr),
    Binary(BinaryExpr),
    Grouping(GroupingExpr),
}

/// An operator applied to one operand.
#[derive(Debug, PartialEq)]
pub struct UnaryExpr {
    pub operator: Token,
    pub right: Box<Expr>,
}

impl UnaryExpr {
    /// The operator `operator` applied to `right`.
    pub fn new(operator: Token, right: Expr) -> (r: UnaryExpr)
        ensures
            r == (UnaryExpr { operator, right: Box::new(right) }),
    {
        UnaryExpr { operator, right: Box::new(right) }
    }
}

/// An operator applied to two operands.
#[derive(Debug, PartialEq)]
pub struct BinaryExpr {
    pub left: Box<Expr>,
    pub operator: Token,
    pub right: Box<Expr>,
}

impl BinaryExpr {
    /// The operator `operator` applied to `left` and `right`.
    pub fn new(left: Expr, operator: Token, right: Expr) -> (r: BinaryExpr)
        ensures
            r == (BinaryExpr { left: Box::new(left), operator, right: Box::new(right) }),
    {
        BinaryExpr { left: Box::new(left), operator, right: Box::new(right) }
    }
}

/// A parenthesised expression.
#[derive(Debug, PartialEq)]
pub struct GroupingExpr {
    pub expression: Box<Expr>,
}

impl GroupingExpr {
    /// The grouping of `expression`.
    pub fn new(expression: Expr) -> (r: GroupingExpr)
        ensures
            r == (GroupingExpr { expression: Box::new(expression) }),
    {
        GroupingExpr { expression: Box::new(expression) }
    }
}

} // verus!
