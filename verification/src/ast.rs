//! The syntax tree the parser builds and the interpreter walks.

use crate::decimal::{Dec, DecM};
use crate::lexer::{Token, TokenM};
use vstd::prelude::*;

verus! {

/// A literal value: the payload of a literal expression and the result
/// of evaluation. An identifier only names a binding inside the tree; it
/// is never the result of evaluation.
#[derive(Debug, Clone)]
pub enum LiteralKind {
    Integer(i64),
    Decimal(Dec),
    QuotedString(String),
    Boolean(bool),
    Identifier(String),
    Nil,
}

/// The mathematical content of a literal.
pub enum LiteralKindM {
    Integer(int),
    Decimal(DecM),
    QuotedString(Seq<char>),
    Boolean(bool),
    Identifier(Seq<char>),
    Nil,
}

impl View for LiteralKind {
    type V = LiteralKindM;

    open spec fn view(&self) -> LiteralKindM {
        match self {
            LiteralKind::Integer(i) => LiteralKindM::Integer(*i as int),
            LiteralKind::Decimal(d) => LiteralKindM::Decimal(d@),
            LiteralKind::QuotedString(s) => LiteralKindM::QuotedString(s@),
            LiteralKind::Boolean(b) => LiteralKindM::Boolean(*b),
            LiteralKind::Identifier(s) => LiteralKindM::Identifier(s@),
            LiteralKind::Nil => LiteralKindM::Nil,
        }
    }
}

/// An expression tree node. Each node owns its children.
#[derive(Debug)]
pub enum Expression {
    Binary(BinaryExpr),
    Grouping(Box<Expression>),
    Unary(UnaryExpr),
    Literal(LiteralKind),
}

#[derive(Debug)]
pub struct BinaryExpr {
    pub operator: Token,
    pub lhs: Box<Expression>,
    pub rhs: Box<Expression>,
}

#[derive(Debug)]
pub struct UnaryExpr {
    pub operator: Token,
    pub rhs: Box<Expression>,
}

/// The mathematical content of an expression tree.
pub enum ExpressionM {
    Binary(TokenM, Box<ExpressionM>, Box<ExpressionM>),
    Grouping(Box<ExpressionM>),
    Unary(TokenM, Box<ExpressionM>),
    Literal(LiteralKindM),
}

pub open spec fn expr_view(e: &Expression) -> ExpressionM
    decreases e,
{
    match e {
        Expression::Binary(b) => ExpressionM::Binary(
            b.operator@,
            Box::new(expr_view(&*b.lhs)),
            Box::new(expr_view(&*b.rhs)),
        ),
        Expression::Grouping(inner) => ExpressionM::Grouping(Box::new(expr_view(&*inner))),
        Expression::Unary(u) => ExpressionM::Unary(u.operator@, Box::new(expr_view(&*u.rhs))),
        Expression::Literal(l) => ExpressionM::Literal(l@),
    }
}

impl View for Expression {
    type V = ExpressionM;

    open spec fn view(&self) -> ExpressionM {
        expr_view(self)
    }
}

/// One statement; a program is an ordered sequence of them.
#[derive(Debug)]
pub enum Statement {
    Print(Box<Expression>),
    Assign(String, Box<Expression>),
    Let(String, Box<Expression>),
    Expr(Box<Expression>),
}

/// The mathematical content of a statement.
pub enum StatementM {
    Print(Box<ExpressionM>),
    Assign(Seq<char>, Box<ExpressionM>),
    Let(Seq<char>, Box<ExpressionM>),
    Expr(Box<ExpressionM>),
}

impl View for Statement {
    type V = StatementM;

    open spec fn view(&self) -> StatementM {
        match self {
            Statement::Print(e) => StatementM::Print(Box::new(expr_view(&*e))),
            Statement::Assign(n, e) => StatementM::Assign(n@, Box::new(expr_view(&*e))),
            Statement::Let(n, e) => StatementM::Let(n@, Box::new(expr_view(&*e))),
            Statement::Expr(e) => StatementM::Expr(Box::new(expr_view(&*e))),
        }
    }
}

} // verus!
