//! Expression nodes.
//!
//! An expression is an immutable tree: each composite variant owns its
//! children. Every operator node carries its source token, whose line number
//! feeds diagnostics. Consumers walk the tree by exhaustive match over the
//! closed sum of variants.

use vstd::prelude::*;

use crate::token::LiteralTypes;
use crate::token::Token;
use crate::token::TokenV;
use crate::token::ValueV;

verus! {

#[derive(Debug, PartialEq)]
pub enum Expr {
    Literal(LiteralTypes),
    Unary(Unary),
    Binary(Binary),
    Comparison(Comparison),
    Grouping(Grouping),
    Variable(Variable),
    Assign(Assign),
    Logical(Logical),
}

#[derive(Debug, PartialEq)]
pub struct Unary {
    pub op: Token,
    pub right: Box<Expr>,
}

#[derive(Debug, PartialEq)]
pub struct Binary {
    pub left: Box<Expr>,
    pub op: Token,
    pub right: Box<Expr>,
}

#[derive(Debug, PartialEq)]
pub struct Comparison {
    pub left: Box<Expr>,
    pub op: Token,
    pub right: Box<Expr>,
}

#[derive(Debug, PartialEq)]
pub struct Grouping {
    pub expr: Box<Expr>,
}

#[derive(Debug, PartialEq)]
pub struct Variable {
    pub identifier: Token,
}

#[derive(Debug, PartialEq)]
pub struct Assign {
    pub name: Token,
    pub value: Box<Expr>,
}

#[derive(Debug, PartialEq)]
pub struct Logical {
    pub left: Box<Expr>,
    pub op: Token,
    pub right: Box<Expr>,
}

/// Mathematical model of an expression tree.
pub enum ExprV {
    Literal(ValueV),
    Unary { op: TokenV, right: Box<ExprV> },
    Binary { left: Box<ExprV>, op: TokenV, right: Box<ExprV> },
    Comparison { left: Box<ExprV>, op: TokenV, right: Box<ExprV> },
    Grouping(Box<ExprV>),
    Variable(TokenV),
    Assign { name: TokenV, value: Box<ExprV> },
    Logical { left: Box<ExprV>, op: TokenV, right: Box<ExprV> },
}

impl View for Expr {
    type V = ExprV;

    open spec fn view(&self) -> ExprV
        decreases self,
    {
        match self {
            Expr::Literal(v) => ExprV::Literal(v@),
            Expr::Unary(u) => ExprV::Unary { op: u.op@, right: Box::new((*u.right)@) },
            Expr::Binary(b) => ExprV::Binary {
                left: Box::new((*b.left)@),
                op: b.op@,
                right: Box::new((*b.right)@),
            },
            Expr::Comparison(c) => ExprV::Comparison {
                left: Box::new((*c.left)@),
                op: c.op@,
                right: Box::new((*c.right)@),
            },
            Expr::Grouping(g) => ExprV::Grouping(Box::new((*g.expr)@)),
            Expr::Variable(v) => ExprV::Variable(v.identifier@),
            Expr::Assign(a) => ExprV::Assign { name: a.name@, value: Box::new((*a.value)@) },
            Expr::Logical(l) => ExprV::Logical {
                left: Box::new((*l.left)@),
                op: l.op@,
                right: Box::new((*l.right)@),
            },
        }
    }
}

} // verus!
