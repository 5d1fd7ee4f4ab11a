//! Recursive-descent parsing: tokens to statements.
//!
//! One token of lookahead, no backtracking. The expression grammar is a
//! strict precedence ladder — equality, comparison, term, factor, unary,
//! primary — each level left-associative. The first structural error is
//! fatal: parsing stops and the error propagates.

use crate::ast::{BinaryExpr, Expression, ExpressionM, LiteralKind, LiteralKindM, Statement,
    StatementM, UnaryExpr};
use crate::error::LoxError;
use crate::lexer::{Token, TokenKind, TokenKindM, TokenM};
use crate::text::{append_u64, dec_digits};
use vstd::prelude::*;
use vstd::string::StringExecFns;

verus! {

/// The name of a token kind, as diagnostics print it.
pub open spec fn kind_name(k: TokenKindM) -> Seq<char> {
    match k {
        TokenKindM::OpenParen => "OpenParen"@,
        TokenKindM::CloseParen => "CloseParen"@,
        TokenKindM::OpenBrace => "OpenBrace"@,
        TokenKindM::CloseBrace => "CloseBrace"@,
        TokenKindM::Comma => "Comma"@,
        TokenKindM::Dot => "Dot"@,
        TokenKindM::Minus => "Minus"@,
        TokenKindM::Plus => "Plus"@,
        TokenKindM::Semicolon => "Semicolon"@,
        TokenKindM::ForwardSlash => "ForwardSlash"@,
        TokenKindM::Asterisk => "Asterisk"@,
        TokenKindM::Percentage => "Percentage"@,
        TokenKindM::Bang => "Bang"@,
        TokenKindM::NotEqual => "NotEqual"@,
        TokenKindM::Assign => "Assign"@,
        TokenKindM::Equal => "Equal"@,
        TokenKindM::GreaterThan => "GreaterThan"@,
        TokenKindM::GreaterEqual => "GreaterEqual"@,
        TokenKindM::LessThan => "LessThan"@,
        TokenKindM::LessEqual => "LessEqual"@,
        TokenKindM::Identifier(_) => "Identifier"@,
        TokenKindM::QuotedString(_) => "QuotedString"@,
        TokenKindM::Integer(_) => "Integer"@,
        TokenKindM::Decimal(_) => "Decimal"@,
        TokenKindM::And => "And"@,
        TokenKindM::Struct => "Struct"@,
        TokenKindM::Else => "Else"@,
        TokenKindM::False => "False"@,
        TokenKindM::Function => "Function"@,
        TokenKindM::For => "For"@,
        TokenKindM::If => "If"@,
        TokenKindM::Nil => "None"@,
        TokenKindM::Or => "Or"@,
        TokenKindM::Print => "Print"@,
        TokenKindM::Return => "Return"@,
        TokenKindM::True => "True"@,
        TokenKindM::Let => "Let"@,
        TokenKindM::While => "While"@,
        TokenKindM::Comment => "Comment"@,
        TokenKindM::Eof => "Eof"@,
        TokenKindM::Invalid => "Invalid"@,
    }
}

pub open spec fn expected_primary_msg(k: TokenKindM, line: int, col: int) -> Seq<char> {
    "Expected primary expression got "@ + kind_name(k) + " at line "@ + dec_digits(line as nat)
        + " column "@ + dec_digits(col as nat)
}

pub open spec fn unexpected_eof_msg() -> Seq<char> {
    "Unexpected Eof"@
}

pub open spec fn unclosed_paren_msg() -> Seq<char> {
    "Unclosed parentheses"@
}

pub open spec fn expected_identifier_msg() -> Seq<char> {
    "Expected identifier"@
}

pub open spec fn expected_assign_msg() -> Seq<char> {
    "Expected assign operator"@
}

pub open spec fn semicolon_eof_msg() -> Seq<char> {
    "Expected semicolon at end of statement at end of file"@
}

pub open spec fn semicolon_at_msg(line: int, col: int) -> Seq<char> {
    "Expected semicolon at end of statement at line "@ + dec_digits(line as nat) + " column "@
        + dec_digits(col as nat)
}

/// What parsing one expression yields: the tree and the index after it,
/// or the fatal diagnostic.
pub enum ExprR {
    Found(ExpressionM, int),
    Fail(Seq<char>),
}

/// What parsing a statement sequence yields.
pub enum StmtsR {
    Parsed(Seq<StatementM>, int),
    Fail(Seq<char>),
}

pub open spec fn is_factor_op(k: TokenKindM) -> bool {
    k is ForwardSlash || k is Asterisk || k is Percentage
}

pub open spec fn is_term_op(k: TokenKindM) -> bool {
    k is Minus || k is Plus
}

pub open spec fn is_comparison_op(k: TokenKindM) -> bool {
    k is GreaterThan || k is GreaterEqual || k is LessThan || k is LessEqual
}

pub open spec fn is_equality_op(k: TokenKindM) -> bool {
    k is NotEqual || k is Equal
}

/// A primary expression: a literal, or a parenthesized expression.
pub open spec fn parse_primary(ts: Seq<TokenM>, i: int) -> ExprR
    decreases ts.len() - i, 0int,
        when 0 <= i <= ts.len()
{
    if i >= ts.len() {
        ExprR::Fail(unexpected_eof_msg())
    } else {
        match ts[i].kind {
            TokenKindM::True => ExprR::Found(
                ExpressionM::Literal(LiteralKindM::Boolean(true)),
                i + 1,
            ),
            TokenKindM::False => ExprR::Found(
                ExpressionM::Literal(LiteralKindM::Boolean(false)),
                i + 1,
            ),
            TokenKindM::Nil => ExprR::Found(ExpressionM::Literal(LiteralKindM::Nil), i + 1),
            TokenKindM::Integer(v) => ExprR::Found(
                ExpressionM::Literal(LiteralKindM::Integer(v)),
                i + 1,
            ),
            TokenKindM::Decimal(d) => ExprR::Found(
                ExpressionM::Literal(LiteralKindM::Decimal(d)),
                i + 1,
            ),
            TokenKindM::QuotedString(s) => ExprR::Found(
                ExpressionM::Literal(LiteralKindM::QuotedString(s)),
                i + 1,
            ),
            TokenKindM::Identifier(s) => ExprR::Found(
                ExpressionM::Literal(LiteralKindM::Identifier(s)),
                i + 1,
            ),
            TokenKindM::OpenParen => match parse_expression(ts, i + 1) {
                ExprR::Fail(m) => ExprR::Fail(m),
                ExprR::Found(e, j) => {
                    if j < ts.len() && ts[j].kind is CloseParen {
                        ExprR::Found(ExpressionM::Grouping(Box::new(e)), j + 1)
                    } else {
                        ExprR::Fail(unclosed_paren_msg())
                    }
                },
            },
            _ => ExprR::Fail(expected_primary_msg(ts[i].kind, ts[i].line, ts[i].col)),
        }
    }
}

/// A unary expression: prefix `!` and `-`, right-associative.
pub open spec fn parse_unary(ts: Seq<TokenM>, i: int) -> ExprR
    decreases ts.len() - i, 1int,
        when 0 <= i <= ts.len()
{
    if i < ts.len() && (ts[i].kind is Bang || ts[i].kind is Minus) {
        match parse_unary(ts, i + 1) {
            ExprR::Fail(m) => ExprR::Fail(m),
            ExprR::Found(e, j) => ExprR::Found(ExpressionM::Unary(ts[i], Box::new(e)), j),
        }
    } else {
        parse_primary(ts, i)
    }
}

/// Folds further `* / %` operands onto `e`, left-associatively.
pub open spec fn factor_tail(ts: Seq<TokenM>, e: ExpressionM, j: int) -> ExprR
    decreases ts.len() - j, 3int,
        when 0 <= j <= ts.len()
{
    if j < ts.len() && is_factor_op(ts[j].kind) {
        match parse_unary(ts, j + 1) {
            ExprR::Fail(m) => ExprR::Fail(m),
            ExprR::Found(r, j2) => {
                if j < j2 <= ts.len() {
                    factor_tail(ts, ExpressionM::Binary(ts[j], Box::new(e), Box::new(r)), j2)
                } else {
                    ExprR::Found(e, j)
                }
            },
        }
    } else {
        ExprR::Found(e, j)
    }
}

pub open spec fn parse_factor(ts: Seq<TokenM>, i: int) -> ExprR
    decreases ts.len() - i, 4int,
        when 0 <= i <= ts.len()
{
    match parse_unary(ts, i) {
        ExprR::Fail(m) => ExprR::Fail(m),
        ExprR::Found(e, j) => {
            if i < j <= ts.len() {
                factor_tail(ts, e, j)
            } else {
                ExprR::Found(e, j)
            }
        },
    }
}

/// Folds further `+ -` operands onto `e`, left-associatively.
pub open spec fn term_tail(ts: Seq<TokenM>, e: ExpressionM, j: int) -> ExprR
    decreases ts.len() - j, 5int,
        when 0 <= j <= ts.len()
{
    if j < ts.len() && is_term_op(ts[j].kind) {
        match parse_factor(ts, j + 1) {
            ExprR::Fail(m) => ExprR::Fail(m),
            ExprR::Found(r, j2) => {
                if j < j2 <= ts.len() {
                    term_tail(ts, ExpressionM::Binary(ts[j], Box::new(e), Box::new(r)), j2)
                } else {
                    ExprR::Found(e, j)
                }
            },
        }
    } else {
        ExprR::Found(e, j)
    }
}

pub open spec fn parse_term(ts: Seq<TokenM>, i: int) -> ExprR
    decreases ts.len() - i, 6int,
        when 0 <= i <= ts.len()
{
    match parse_factor(ts, i) {
        ExprR::Fail(m) => ExprR::Fail(m),
        ExprR::Found(e, j) => {
            if i < j <= ts.len() {
                term_tail(ts, e, j)
            } else {
                ExprR::Found(e, j)
            }
        },
    }
}

/// Folds further ordering operands onto `e`, left-associatively.
pub open spec fn comparison_tail(ts: Seq<TokenM>, e: ExpressionM, j: int) -> ExprR
    decreases ts.len() - j, 7int,
        when 0 <= j <= ts.len()
{
    if j < ts.len() && is_comparison_op(ts[j].kind) {
        match parse_term(ts, j + 1) {
            ExprR::Fail(m) => ExprR::Fail(m),
            ExprR::Found(r, j2) => {
                if j < j2 <= ts.len() {
                    comparison_tail(ts, ExpressionM::Binary(ts[j], Box::new(e), Box::new(r)), j2)
                } else {
                    ExprR::Found(e, j)
                }
            },
        }
    } else {
        ExprR::Found(e, j)
    }
}

pub open spec fn parse_comparison(ts: Seq<TokenM>, i: int) -> ExprR
    decreases ts.len() - i, 8int,
        when 0 <= i <= ts.len()
{
    match parse_term(ts, i) {
        ExprR::Fail(m) => ExprR::Fail(m),
        ExprR::Found(e, j) => {
            if i < j <= ts.len() {
                comparison_tail(ts, e, j)
            } else {
                ExprR::Found(e, j)
            }
        },
    }
}

/// Folds further `== !=` operands onto `e`, left-associatively.
pub open spec fn equality_tail(ts: Seq<TokenM>, e: ExpressionM, j: int) -> ExprR
    decreases ts.len() - j, 9int,
        when 0 <= j <= ts.len()
{
    if j < ts.len() && is_equality_op(ts[j].kind) {
        match parse_comparison(ts, j + 1) {
            ExprR::Fail(m) => ExprR::Fail(m),
            ExprR::Found(r, j2) => {
                if j < j2 <= ts.len() {
                    equality_tail(ts, ExpressionM::Binary(ts[j], Box::new(e), Box::new(r)), j2)
                } else {
                    ExprR::Found(e, j)
                }
            },
        }
    } else {
        ExprR::Found(e, j)
    }
}

pub open spec fn parse_equality(ts: Seq<TokenM>, i: int) -> ExprR
    decreases ts.len() - i, 10int,
        when 0 <= i <= ts.len()
{
    match parse_comparison(ts, i) {
        ExprR::Fail(m) => ExprR::Fail(m),
        ExprR::Found(e, j) => {
            if i < j <= ts.len() {
                equality_tail(ts, e, j)
            } else {
                ExprR::Found(e, j)
            }
        },
    }
}

/// A full expression: the lowest precedence level.
pub open spec fn parse_expression(ts: Seq<TokenM>, i: int) -> ExprR
    decreases ts.len() - i, 11int,
        when 0 <= i <= ts.len()
{
    parse_equality(ts, i)
}

/// The message for a missing statement-ending semicolon at `j`.
pub open spec fn semicolon_msg(ts: Seq<TokenM>, j: int) -> Seq<char> {
    if j >= ts.len() {
        semicolon_eof_msg()
    } else {
        semicolon_at_msg(ts[j].line, ts[j].col)
    }
}

/// What parsing one statement yields: the statement and the index after
/// it, or the fatal diagnostic.
pub enum StmtR {
    One(StatementM, int),
    Fail(Seq<char>),
}

/// One statement: `print EXPR ;`, `let IDENT (= EXPR)? ;`, `IDENT = EXPR ;`
/// when an assign token follows the identifier, or a bare expression with
/// no trailing semicolon, in that order of preference.
#[verifier::opaque]
pub open spec fn parse_one_stmt(ts: Seq<TokenM>, i: int) -> StmtR
    decreases ts.len() - i, 12int,
        when 0 <= i < ts.len()
{
    if ts[i].kind is Print {
        match parse_expression(ts, i + 1) {
            ExprR::Fail(m) => StmtR::Fail(m),
            ExprR::Found(e, j) => {
                if j < ts.len() && ts[j].kind is Semicolon {
                    StmtR::One(StatementM::Print(Box::new(e)), j + 1)
                } else {
                    StmtR::Fail(semicolon_msg(ts, j))
                }
            },
        }
    } else if ts[i].kind is Let {
        if i + 1 < ts.len() && ts[i + 1].kind is Identifier {
            let name = ts[i + 1].kind->Identifier_0;
            if i + 2 < ts.len() && ts[i + 2].kind is Assign {
                match parse_expression(ts, i + 3) {
                    ExprR::Fail(m) => StmtR::Fail(m),
                    ExprR::Found(e, j) => {
                        if j < ts.len() && ts[j].kind is Semicolon {
                            StmtR::One(StatementM::Let(name, Box::new(e)), j + 1)
                        } else {
                            StmtR::Fail(semicolon_msg(ts, j))
                        }
                    },
                }
            } else if i + 2 < ts.len() && ts[i + 2].kind is Semicolon {
                StmtR::One(
                    StatementM::Let(name, Box::new(ExpressionM::Literal(LiteralKindM::Nil))),
                    i + 3,
                )
            } else {
                StmtR::Fail(expected_assign_msg())
            }
        } else {
            StmtR::Fail(expected_identifier_msg())
        }
    } else if ts[i].kind is Identifier && i + 1 < ts.len() && ts[i + 1].kind is Assign {
        let name = ts[i].kind->Identifier_0;
        match parse_expression(ts, i + 2) {
            ExprR::Fail(m) => StmtR::Fail(m),
            ExprR::Found(e, j) => {
                if j < ts.len() && ts[j].kind is Semicolon {
                    StmtR::One(StatementM::Assign(name, Box::new(e)), j + 1)
                } else {
                    StmtR::Fail(semicolon_msg(ts, j))
                }
            },
        }
    } else {
        match parse_expression(ts, i) {
            ExprR::Fail(m) => StmtR::Fail(m),
            ExprR::Found(e, j) => StmtR::One(StatementM::Expr(Box::new(e)), j),
        }
    }
}

/// The statement grammar applied until the tokens run out; the first
/// structural error is fatal.
pub open spec fn parse_stmts(ts: Seq<TokenM>, i: int) -> StmtsR
    decreases ts.len() - i, 13int,
        when 0 <= i <= ts.len()
{
    if i >= ts.len() {
        StmtsR::Parsed(Seq::empty(), i)
    } else {
        match parse_one_stmt(ts, i) {
            StmtR::Fail(m) => StmtsR::Fail(m),
            StmtR::One(st, j) => {
                if i < j <= ts.len() {
                    match parse_stmts(ts, j) {
                        StmtsR::Fail(m) => StmtsR::Fail(m),
                        StmtsR::Parsed(rest, end) => StmtsR::Parsed(seq![st] + rest, end),
                    }
                } else {
                    StmtsR::Parsed(seq![st], j)
                }
            },
        }
    }
}

pub(crate) fn kind_name_exec(k: &TokenKind) -> (n: String)
    ensures
        n@ == kind_name(k@),
{
    proof {
        reveal_strlit("OpenParen");
        reveal_strlit("CloseParen");
        reveal_strlit("OpenBrace");
        reveal_strlit("CloseBrace");
        reveal_strlit("Comma");
        reveal_strlit("Dot");
        reveal_strlit("Minus");
        reveal_strlit("Plus");
        reveal_strlit("Semicolon");
        reveal_strlit("ForwardSlash");
        reveal_strlit("Asterisk");
        reveal_strlit("Percentage");
        reveal_strlit("Bang");
        reveal_strlit("NotEqual");
        reveal_strlit("Assign");
        reveal_strlit("Equal");
        reveal_strlit("GreaterThan");
        reveal_strlit("GreaterEqual");
        reveal_strlit("LessThan");
        reveal_strlit("LessEqual");
        reveal_strlit("Identifier");
        reveal_strlit("QuotedString");
        reveal_strlit("Integer");
        reveal_strlit("Decimal");
        reveal_strlit("And");
        reveal_strlit("Struct");
        reveal_strlit("Else");
        reveal_strlit("False");
        reveal_strlit("Function");
        reveal_strlit("For");
        reveal_strlit("If");
        reveal_strlit("None");
        reveal_strlit("Or");
        reveal_strlit("Print");
        reveal_strlit("Return");
        reveal_strlit("True");
        reveal_strlit("Let");
        reveal_strlit("While");
        reveal_strlit("Comment");
        reveal_strlit("Eof");
        reveal_strlit("Invalid");
    }
    match k {
        TokenKind::OpenParen => String::from_str("OpenParen"),
        TokenKind::CloseParen => String::from_str("CloseParen"),
        TokenKind::OpenBrace => String::from_str("OpenBrace"),
        TokenKind::CloseBrace => String::from_str("CloseBrace"),
        TokenKind::Comma => String::from_str("Comma"),
        TokenKind::Dot => String::from_str("Dot"),
        TokenKind::Minus => String::from_str("Minus"),
        TokenKind::Plus => String::from_str("Plus"),
        TokenKind::Semicolon => String::from_str("Semicolon"),
        TokenKind::ForwardSlash => String::from_str("ForwardSlash"),
        TokenKind::Asterisk => String::from_str("Asterisk"),
        TokenKind::Percentage => String::from_str("Percentage"),
        TokenKind::Bang => String::from_str("Bang"),
        TokenKind::NotEqual => String::from_str("NotEqual"),
        TokenKind::Assign => String::from_str("Assign"),
        TokenKind::Equal => String::from_str("Equal"),
        TokenKind::GreaterThan => String::from_str("GreaterThan"),
        TokenKind::GreaterEqual => String::from_str("GreaterEqual"),
        TokenKind::LessThan => String::from_str("LessThan"),
        TokenKind::LessEqual => String::from_str("LessEqual"),
        TokenKind::Identifier(_) => String::from_str("Identifier"),
        TokenKind::QuotedString(_) => String::from_str("QuotedString"),
        TokenKind::Integer(_) => String::from_str("Integer"),
        TokenKind::Decimal(_) => String::from_str("Decimal"),
        TokenKind::And => String::from_str("And"),
        TokenKind::Struct => String::from_str("Struct"),
        TokenKind::Else => String::from_str("Else"),
        TokenKind::False => String::from_str("False"),
        TokenKind::Function => String::from_str("Function"),
        TokenKind::For => String::from_str("For"),
        TokenKind::If => String::from_str("If"),
        TokenKind::Nil => String::from_str("None"),
        TokenKind::Or => String::from_str("Or"),
        TokenKind::Print => String::from_str("Print"),
        TokenKind::Return => String::from_str("Return"),
        TokenKind::True => String::from_str("True"),
        TokenKind::Let => String::from_str("Let"),
        TokenKind::While => String::from_str("While"),
        TokenKind::Comment => String::from_str("Comment"),
        TokenKind::Eof => String::from_str("Eof"),
        TokenKind::Invalid => String::from_str("Invalid"),
    }
}

fn expected_primary_message(tok: &Token) -> (m: String)
    ensures
        m@ == expected_primary_msg(tok@.kind, tok@.line, tok@.col),
{
    proof {
        reveal_strlit("Expected primary expression got ");
        reveal_strlit(" at line ");
        reveal_strlit(" column ");
    }
    let mut m = String::from_str("Expected primary expression got ");
    let name = kind_name_exec(&tok.kind);
    m.append(name.as_str());
    m.append(" at line ");
    append_u64(&mut m, tok.span.line as u64);
    m.append(" column ");
    append_u64(&mut m, tok.span.column as u64);
    proof {
        assert(m@ =~= expected_primary_msg(tok@.kind, tok@.line, tok@.col));
    }
    m
}

fn semicolon_message_at(line: usize, col: usize) -> (m: String)
    ensures
        m@ == semicolon_at_msg(line as int, col as int),
{
    proof {
        reveal_strlit("Expected semicolon at end of statement at line ");
        reveal_strlit(" column ");
    }
    let mut m = String::from_str("Expected semicolon at end of statement at line ");
    append_u64(&mut m, line as u64);
    m.append(" column ");
    append_u64(&mut m, col as u64);
    proof {
        assert(m@ =~= semicolon_at_msg(line as int, col as int));
    }
    m
}


/// An owned copy of a token kind, for handing a consumed token out.
fn clone_token_kind(k: &TokenKind) -> (r: TokenKind)
    ensures
        r@ == k@,
{
    match k {
        TokenKind::OpenParen => TokenKind::OpenParen,
        TokenKind::CloseParen => TokenKind::CloseParen,
        TokenKind::OpenBrace => TokenKind::OpenBrace,
        TokenKind::CloseBrace => TokenKind::CloseBrace,
        TokenKind::Comma => TokenKind::Comma,
        TokenKind::Dot => TokenKind::Dot,
        TokenKind::Minus => TokenKind::Minus,
        TokenKind::Plus => TokenKind::Plus,
        TokenKind::Semicolon => TokenKind::Semicolon,
        TokenKind::ForwardSlash => TokenKind::ForwardSlash,
        TokenKind::Asterisk => TokenKind::Asterisk,
        TokenKind::Percentage => TokenKind::Percentage,
        TokenKind::Bang => TokenKind::Bang,
        TokenKind::NotEqual => TokenKind::NotEqual,
        TokenKind::Assign => TokenKind::Assign,
        TokenKind::Equal => TokenKind::Equal,
        TokenKind::GreaterThan => TokenKind::GreaterThan,
        TokenKind::GreaterEqual => TokenKind::GreaterEqual,
        TokenKind::LessThan => TokenKind::LessThan,
        TokenKind::LessEqual => TokenKind::LessEqual,
        TokenKind::Identifier(s) => TokenKind::Identifier(s.clone()),
        TokenKind::QuotedString(s) => TokenKind::QuotedString(s.clone()),
        TokenKind::Integer(v) => TokenKind::Integer(*v),
        TokenKind::Decimal(d) => TokenKind::Decimal(*d),
        TokenKind::And => TokenKind::And,
        TokenKind::Struct => TokenKind::Struct,
        TokenKind::Else => TokenKind::Else,
        TokenKind::False => TokenKind::False,
        TokenKind::Function => TokenKind::Function,
        TokenKind::For => TokenKind::For,
        TokenKind::If => TokenKind::If,
        TokenKind::Nil => TokenKind::Nil,
        TokenKind::Or => TokenKind::Or,
        TokenKind::Print => TokenKind::Print,
        TokenKind::Return => TokenKind::Return,
        TokenKind::True => TokenKind::True,
        TokenKind::Let => TokenKind::Let,
        TokenKind::While => TokenKind::While,
        TokenKind::Comment => TokenKind::Comment,
        TokenKind::Eof => TokenKind::Eof,
        TokenKind::Invalid => TokenKind::Invalid,
    }
}

/// Consumes a filtered token stream, one token of lookahead.
#[derive(Debug)]
pub struct Parser {
    tokens: Vec<Token>,
    cursor: usize,
}

impl Parser {
    /// The tokens being parsed.
    pub closed spec fn toks(self) -> Seq<TokenM> {
        self.tokens@.map_values(|t: Token| t@)
    }

    /// Index of the next unconsumed token.
    pub closed spec fn cur(self) -> int {
        self.cursor as int
    }

    pub closed spec fn wf(self) -> bool {
        self.cursor <= self.tokens@.len()
    }

    pub fn new(tokens: Vec<Token>) -> (p: Parser)
        ensures
            p.wf(),
            p.toks() == tokens@.map_values(|t: Token| t@),
            p.cur() == 0,
    {
        Parser { tokens: tokens, cursor: 0 }
    }

    /// The next token, without consuming it.
    fn peek(&self) -> (t: Option<&Token>)
        requires
            self.wf(),
        ensures
            match t {
                Option::Some(tok) => self.cur() < self.toks().len() && tok@ == self.toks()[self.cur()],
                Option::None => self.cur() == self.toks().len(),
            },
    {
        if self.cursor < self.tokens.len() {
            Option::Some(&self.tokens[self.cursor])
        } else {
            Option::None
        }
    }

    /// Consumes the next token and hands back an owned copy of it,
    /// `None` at the end of the stream.
    pub fn to_next_token(&mut self) -> (t: Option<Token>)
        requires
            old(self).wf(),
        ensures
            final(self).wf(),
            final(self).toks() == old(self).toks(),
            match t {
                Option::Some(tok) => old(self).cur() < old(self).toks().len() && tok@ == old(
                    self,
                ).toks()[old(self).cur()] && final(self).cur() == old(self).cur() + 1,
                Option::None => old(self).cur() == old(self).toks().len() && final(self).cur()
                    == old(self).cur(),
            },
    {
        if self.cursor < self.tokens.len() {
            let kind = clone_token_kind(&self.tokens[self.cursor].kind);
            let span = self.tokens[self.cursor].span;
            self.cursor = self.cursor + 1;
            Option::Some(Token { kind: kind, span: span })
        } else {
            Option::None
        }
    }

    /// Consumes an operator token, handing back an owned copy for the
    /// tree node being built.
    fn take_op_token(&mut self) -> (t: Token)
        requires
            old(self).wf(),
            old(self).cur() < old(self).toks().len(),
            ({
                let k = old(self).toks()[old(self).cur()].kind;
                ||| is_factor_op(k)
                ||| is_term_op(k)
                ||| is_comparison_op(k)
                ||| is_equality_op(k)
                ||| k is Bang
            }),
        ensures
            final(self).wf(),
            final(self).toks() == old(self).toks(),
            final(self).cur() == old(self).cur() + 1,
            t@ == old(self).toks()[old(self).cur()],
    {
        let n = self.tokens.len();
        proof {
            assert(self.cursor < n && self.toks().len() == n);
        }
        let kind = match &self.tokens[self.cursor].kind {
            TokenKind::NotEqual => TokenKind::NotEqual,
            TokenKind::Equal => TokenKind::Equal,
            TokenKind::GreaterThan => TokenKind::GreaterThan,
            TokenKind::GreaterEqual => TokenKind::GreaterEqual,
            TokenKind::LessThan => TokenKind::LessThan,
            TokenKind::LessEqual => TokenKind::LessEqual,
            TokenKind::Minus => TokenKind::Minus,
            TokenKind::Plus => TokenKind::Plus,
            TokenKind::ForwardSlash => TokenKind::ForwardSlash,
            TokenKind::Asterisk => TokenKind::Asterisk,
            TokenKind::Percentage => TokenKind::Percentage,
            _ => TokenKind::Bang,
        };
        let span = self.tokens[self.cursor].span;
        self.cursor = self.cursor + 1;
        Token { kind: kind, span: span }
    }

}

impl Parser {
    /// A literal or a parenthesized expression.
    pub fn primary(&mut self) -> (r: Result<Expression, LoxError>)
        requires
            old(self).wf(),
        ensures
            final(self).wf(),
            final(self).toks() == old(self).toks(),
            ({
                let sp = parse_primary(old(self).toks(), old(self).cur());
                match r {
                    Result::Ok(e) => (sp matches ExprR::Found(em, j) && e@ == em && final(self).cur() == j && old(self).cur() < j <= final(self).toks().len()),
                    Result::Err(le) => (sp matches ExprR::Fail(m) && le matches
                        LoxError::ParseError(pm) && pm@ == m),
                }
            }),
        decreases old(self).toks().len() - old(self).cur(), 0int,
    {
        let n = self.tokens.len();
        if self.cursor >= n {
            proof {
                reveal_strlit("Unexpected Eof");
            }
            return Result::Err(LoxError::ParseError(String::from_str("Unexpected Eof")));
        }
        let open_paren = matches!(&self.tokens[self.cursor].kind, TokenKind::OpenParen);
        if open_paren {
            self.to_next_token();
            let inner = match self.expression() {
                Result::Err(e) => {
                    return Result::Err(e);
                },
                Result::Ok(inner) => inner,
            };
            let close = matches!(self.peek(), Option::Some(t) if matches!(t.kind, TokenKind::CloseParen));
            if close {
                self.to_next_token();
                Result::Ok(Expression::Grouping(Box::new(inner)))
            } else {
                proof {
                    reveal_strlit("Unclosed parentheses");
                }
                Result::Err(LoxError::ParseError(String::from_str("Unclosed parentheses")))
            }
        } else {
            let built: Result<Expression, LoxError> = match &self.tokens[self.cursor].kind {
                TokenKind::True => Result::Ok(
                    Expression::Literal(LiteralKind::Boolean(true)),
                ),
                TokenKind::False => Result::Ok(
                    Expression::Literal(LiteralKind::Boolean(false)),
                ),
                TokenKind::Nil => Result::Ok(Expression::Literal(LiteralKind::Nil)),
                TokenKind::Integer(v) => Result::Ok(
                    Expression::Literal(LiteralKind::Integer(*v)),
                ),
                TokenKind::Decimal(d) => Result::Ok(
                    Expression::Literal(LiteralKind::Decimal(*d)),
                ),
                TokenKind::QuotedString(s) => Result::Ok(
                    Expression::Literal(LiteralKind::QuotedString(s.clone())),
                ),
                TokenKind::Identifier(s) => Result::Ok(
                    Expression::Literal(LiteralKind::Identifier(s.clone())),
                ),
                _ => Result::Err(
                    LoxError::ParseError(expected_primary_message(&self.tokens[self.cursor])),
                ),
            };
            match built {
                Result::Ok(e) => {
                    self.to_next_token();
                    Result::Ok(e)
                },
                Result::Err(le) => Result::Err(le),
            }
        }
    }

    /// Prefix `!` and `-`, right-associative.
    pub fn unary(&mut self) -> (r: Result<Expression, LoxError>)
        requires
            old(self).wf(),
        ensures
            final(self).wf(),
            final(self).toks() == old(self).toks(),
            ({
                let sp = parse_unary(old(self).toks(), old(self).cur());
                match r {
                    Result::Ok(e) => (sp matches ExprR::Found(em, j) && e@ == em && final(self).cur() == j && old(self).cur() < j <= final(self).toks().len()),
                    Result::Err(le) => (sp matches ExprR::Fail(m) && le matches
                        LoxError::ParseError(pm) && pm@ == m),
                }
            }),
        decreases old(self).toks().len() - old(self).cur(), 1int,
    {
        let is_unary_op = matches!(self.peek(), Option::Some(t) if matches!(t.kind, TokenKind::Bang | TokenKind::Minus));
        if is_unary_op {
            let op = self.take_op_token();
            match self.unary() {
                Result::Err(e) => Result::Err(e),
                Result::Ok(rhs) => Result::Ok(
                    Expression::Unary(UnaryExpr { operator: op, rhs: Box::new(rhs) }),
                ),
            }
        } else {
            self.primary()
        }
    }

    /// `* / %`, left-associative.
    #[verifier::loop_isolation(false)]
    pub fn factor(&mut self) -> (r: Result<Expression, LoxError>)
        requires
            old(self).wf(),
        ensures
            final(self).wf(),
            final(self).toks() == old(self).toks(),
            ({
                let sp = parse_factor(old(self).toks(), old(self).cur());
                match r {
                    Result::Ok(e) => (sp matches ExprR::Found(em, j) && e@ == em && final(self).cur() == j && old(self).cur() < j <= final(self).toks().len()),
                    Result::Err(le) => (sp matches ExprR::Fail(m) && le matches
                        LoxError::ParseError(pm) && pm@ == m),
                }
            }),
        decreases old(self).toks().len() - old(self).cur(), 2int,
    {
        let ghost ts = self.toks();
        let ghost i0 = self.cur();
        let mut expr = match self.unary() {
            Result::Err(e) => {
                return Result::Err(e);
            },
            Result::Ok(e) => e,
        };
        while matches!(self.peek(), Option::Some(t) if matches!(t.kind, TokenKind::ForwardSlash | TokenKind::Asterisk | TokenKind::Percentage))
            invariant
                self.wf(),
                self.toks() == ts,
                i0 < self.cur() <= ts.len(),
                factor_tail(ts, expr@, self.cur()) == parse_factor(ts, i0),
            decreases ts.len() - self.cur(),
        {
            let op = self.take_op_token();
            let rhs = match self.unary() {
                Result::Err(e) => {
                    return Result::Err(e);
                },
                Result::Ok(e) => e,
            };
            expr = Expression::Binary(
                BinaryExpr { operator: op, lhs: Box::new(expr), rhs: Box::new(rhs) },
            );
        }
        Result::Ok(expr)
    }

    /// `+ -`, left-associative.
    #[verifier::loop_isolation(false)]
    pub fn term(&mut self) -> (r: Result<Expression, LoxError>)
        requires
            old(self).wf(),
        ensures
            final(self).wf(),
            final(self).toks() == old(self).toks(),
            ({
                let sp = parse_term(old(self).toks(), old(self).cur());
                match r {
                    Result::Ok(e) => (sp matches ExprR::Found(em, j) && e@ == em && final(self).cur() == j && old(self).cur() < j <= final(self).toks().len()),
                    Result::Err(le) => (sp matches ExprR::Fail(m) && le matches
                        LoxError::ParseError(pm) && pm@ == m),
                }
            }),
        decreases old(self).toks().len() - old(self).cur(), 3int,
    {
        let ghost ts = self.toks();
        let ghost i0 = self.cur();
        let mut expr = match self.factor() {
            Result::Err(e) => {
                return Result::Err(e);
            },
            Result::Ok(e) => e,
        };
        while matches!(self.peek(), Option::Some(t) if matches!(t.kind, TokenKind::Minus | TokenKind::Plus))
            invariant
                self.wf(),
                self.toks() == ts,
                i0 < self.cur() <= ts.len(),
                term_tail(ts, expr@, self.cur()) == parse_term(ts, i0),
            decreases ts.len() - self.cur(),
        {
            let op = self.take_op_token();
            let rhs = match self.factor() {
                Result::Err(e) => {
                    return Result::Err(e);
                },
                Result::Ok(e) => e,
            };
            expr = Expression::Binary(
                BinaryExpr { operator: op, lhs: Box::new(expr), rhs: Box::new(rhs) },
            );
        }
        Result::Ok(expr)
    }

    /// `> >= < <=`, left-associative.
    #[verifier::loop_isolation(false)]
    #[verifier::rlimit(60)]
    pub fn comparison(&mut self) -> (r: Result<Expression, LoxError>)
        requires
            old(self).wf(),
        ensures
            final(self).wf(),
            final(self).toks() == old(self).toks(),
            ({
                let sp = parse_comparison(old(self).toks(), old(self).cur());
                match r {
                    Result::Ok(e) => (sp matches ExprR::Found(em, j) && e@ == em && final(self).cur() == j && old(self).cur() < j <= final(self).toks().len()),
                    Result::Err(le) => (sp matches ExprR::Fail(m) && le matches
                        LoxError::ParseError(pm) && pm@ == m),
                }
            }),
        decreases old(self).toks().len() - old(self).cur(), 4int,
    {
        let ghost ts = self.toks();
        let ghost i0 = self.cur();
        let mut expr = match self.term() {
            Result::Err(e) => {
                return Result::Err(e);
            },
            Result::Ok(e) => e,
        };
        while matches!(self.peek(), Option::Some(t) if matches!(t.kind, TokenKind::GreaterThan | TokenKind::GreaterEqual | TokenKind::LessThan | TokenKind::LessEqual))
            invariant
                self.wf(),
                self.toks() == ts,
                i0 < self.cur() <= ts.len(),
                comparison_tail(ts, expr@, self.cur()) == parse_comparison(ts, i0),
            decreases ts.len() - self.cur(),
        {
            let op = self.take_op_token();
            let rhs = match self.term() {
                Result::Err(e) => {
                    return Result::Err(e);
                },
                Result::Ok(e) => e,
            };
            expr = Expression::Binary(
                BinaryExpr { operator: op, lhs: Box::new(expr), rhs: Box::new(rhs) },
            );
        }
        Result::Ok(expr)
    }

    /// `== !=`, left-associative.
    #[verifier::loop_isolation(false)]
    #[verifier::rlimit(100)]
    pub fn equality(&mut self) -> (r: Result<Expression, LoxError>)
        requires
            old(self).wf(),
        ensures
            final(self).wf(),
            final(self).toks() == old(self).toks(),
            ({
                let sp = parse_equality(old(self).toks(), old(self).cur());
                match r {
                    Result::Ok(e) => (sp matches ExprR::Found(em, j) && e@ == em && final(self).cur() == j && old(self).cur() < j <= final(self).toks().len()),
                    Result::Err(le) => (sp matches ExprR::Fail(m) && le matches
                        LoxError::ParseError(pm) && pm@ == m),
                }
            }),
        decreases old(self).toks().len() - old(self).cur(), 5int,
    {
        let ghost ts = self.toks();
        let ghost i0 = self.cur();
        let mut expr = match self.comparison() {
            Result::Err(e) => {
                return Result::Err(e);
            },
            Result::Ok(e) => e,
        };
        proof {
            assert(equality_tail(ts, expr@, self.cur()) == parse_equality(ts, i0));
        }
        while matches!(self.peek(), Option::Some(t) if matches!(t.kind, TokenKind::NotEqual | TokenKind::Equal))
            invariant
                self.wf(),
                self.toks() == ts,
                i0 < self.cur() <= ts.len(),
                equality_tail(ts, expr@, self.cur()) == parse_equality(ts, i0),
            decreases ts.len() - self.cur(),
        {
            let ghost pre = expr@;
            let ghost j = self.cur();
            let op = self.take_op_token();
            let rhs = match self.comparison() {
                Result::Err(e) => {
                    return Result::Err(e);
                },
                Result::Ok(e) => e,
            };
            expr = Expression::Binary(
                BinaryExpr { operator: op, lhs: Box::new(expr), rhs: Box::new(rhs) },
            );
            proof {
                assert(expr@ == ExpressionM::Binary(ts[j], Box::new(pre), Box::new(rhs@)));
                assert(equality_tail(ts, pre, j) == equality_tail(ts, expr@, self.cur()));
            }
        }
        Result::Ok(expr)
    }

    /// A full expression: the lowest precedence level.
    pub fn expression(&mut self) -> (r: Result<Expression, LoxError>)
        requires
            old(self).wf(),
        ensures
            final(self).wf(),
            final(self).toks() == old(self).toks(),
            ({
                let sp = parse_expression(old(self).toks(), old(self).cur());
                match r {
                    Result::Ok(e) => (sp matches ExprR::Found(em, j) && e@ == em && final(self).cur() == j && old(self).cur() < j <= final(self).toks().len()),
                    Result::Err(le) => (sp matches ExprR::Fail(m) && le matches
                        LoxError::ParseError(pm) && pm@ == m),
                }
            }),
        decreases old(self).toks().len() - old(self).cur(), 6int,
    {
        self.equality()
    }
}


impl Parser {
    /// Consumes the semicolon that ends a statement, or reports where it
    /// is missing.
    fn expect_semicolon(&mut self) -> (r: Result<(), LoxError>)
        requires
            old(self).wf(),
        ensures
            final(self).wf(),
            final(self).toks() == old(self).toks(),
            match r {
                Result::Ok(u) => old(self).cur() < old(self).toks().len() && old(self).toks()[old(
                    self,
                ).cur()].kind is Semicolon && final(self).cur() == old(self).cur() + 1,
                Result::Err(le) => !(old(self).cur() < old(self).toks().len() && old(self).toks()[
                    old(self).cur()
                ].kind is Semicolon) && (le matches LoxError::ParseError(pm) && pm@
                    == semicolon_msg(old(self).toks(), old(self).cur())) && *final(self) == *old(
                    self,
                ),
            },
    {
        let is_semi = matches!(self.peek(), Option::Some(t) if matches!(t.kind, TokenKind::Semicolon));
        if is_semi {
            self.to_next_token();
            Result::Ok(())
        } else {
            match self.peek() {
                Option::Some(t) => Result::Err(
                    LoxError::ParseError(semicolon_message_at(t.span.line, t.span.column)),
                ),
                Option::None => {
                    proof {
                        reveal_strlit("Expected semicolon at end of statement at end of file");
                    }
                    Result::Err(
                        LoxError::ParseError(
                            String::from_str(
                                "Expected semicolon at end of statement at end of file",
                            ),
                        ),
                    )
                },
            }
        }
    }

    /// `print EXPR ;` — the expression's value is printed when executed.
    fn print_statement(&mut self, stmts: &mut Vec<Statement>) -> (r: Result<(), LoxError>)
        requires
            old(self).wf(),
            old(self).cur() < old(self).toks().len(),
            old(self).toks()[old(self).cur()].kind is Print,
        ensures
            final(self).wf(),
            final(self).toks() == old(self).toks(),
            ({
                let sp = parse_one_stmt(old(self).toks(), old(self).cur());
                match r {
                    Result::Ok(u) => (sp matches StmtR::One(sm, j) && final(self).cur() == j && old(
                        self,
                    ).cur() < j <= final(self).toks().len() && final(stmts)@ == old(stmts)@.push(
                        final(stmts)@.last(),
                    ) && final(stmts)@.last()@ == sm),
                    Result::Err(le) => (sp matches StmtR::Fail(m) && le matches
                        LoxError::ParseError(pm) && pm@ == m),
                }
            }),
    {
        proof {
            reveal(parse_one_stmt);
        }
        self.to_next_token();
        let value = match self.expression() {
            Result::Err(e) => {
                return Result::Err(e);
            },
            Result::Ok(e) => e,
        };
        match self.expect_semicolon() {
            Result::Err(e) => {
                return Result::Err(e);
            },
            Result::Ok(u) => {},
        }
        stmts.push(Statement::Print(Box::new(value)));
        proof {
            assert(final(stmts)@ =~= old(stmts)@.push(final(stmts)@.last()));
        }
        Result::Ok(())
    }

    /// `let IDENT (= EXPR)? ;` — an omitted initializer binds `None`.
    fn variable_declaration(&mut self, stmts: &mut Vec<Statement>) -> (r: Result<(), LoxError>)
        requires
            old(self).wf(),
            old(self).cur() < old(self).toks().len(),
            old(self).toks()[old(self).cur()].kind is Let,
        ensures
            final(self).wf(),
            final(self).toks() == old(self).toks(),
            ({
                let sp = parse_one_stmt(old(self).toks(), old(self).cur());
                match r {
                    Result::Ok(u) => (sp matches StmtR::One(sm, j) && final(self).cur() == j && old(
                        self,
                    ).cur() < j <= final(self).toks().len() && final(stmts)@ == old(stmts)@.push(
                        final(stmts)@.last(),
                    ) && final(stmts)@.last()@ == sm),
                    Result::Err(le) => (sp matches StmtR::Fail(m) && le matches
                        LoxError::ParseError(pm) && pm@ == m),
                }
            }),
    {
        proof {
            reveal(parse_one_stmt);
        }
        self.to_next_token();
        let varname: String = match self.peek() {
            Option::Some(t) => match &t.kind {
                TokenKind::Identifier(s) => s.clone(),
                _ => {
                    proof {
                        reveal_strlit("Expected identifier");
                    }
                    return Result::Err(
                        LoxError::ParseError(String::from_str("Expected identifier")),
                    );
                },
            },
            Option::None => {
                proof {
                    reveal_strlit("Expected identifier");
                }
                return Result::Err(LoxError::ParseError(String::from_str("Expected identifier")));
            },
        };
        self.to_next_token();
        let has_assign = matches!(self.peek(), Option::Some(t) if matches!(t.kind, TokenKind::Assign));
        let has_semi = matches!(self.peek(), Option::Some(t) if matches!(t.kind, TokenKind::Semicolon));
        if has_assign {
            self.to_next_token();
            let initializer = match self.expression() {
                Result::Err(e) => {
                    return Result::Err(e);
                },
                Result::Ok(e) => e,
            };
            match self.expect_semicolon() {
                Result::Err(e) => {
                    return Result::Err(e);
                },
                Result::Ok(u) => {},
            }
            stmts.push(Statement::Let(varname, Box::new(initializer)));
            proof {
                assert(final(stmts)@ =~= old(stmts)@.push(final(stmts)@.last()));
            }
            Result::Ok(())
        } else if has_semi {
            stmts.push(Statement::Let(varname, Box::new(Expression::Literal(LiteralKind::Nil))));
            self.to_next_token();
            proof {
                assert(final(stmts)@ =~= old(stmts)@.push(final(stmts)@.last()));
            }
            Result::Ok(())
        } else {
            proof {
                reveal_strlit("Expected assign operator");
            }
            Result::Err(LoxError::ParseError(String::from_str("Expected assign operator")))
        }
    }

    /// `IDENT = EXPR ;` — rebinds the name, like `let`.
    pub fn assignment(&mut self) -> (r: Result<Statement, LoxError>)
        requires
            old(self).wf(),
            old(self).cur() < old(self).toks().len(),
            old(self).toks()[old(self).cur()].kind is Identifier,
            old(self).cur() + 1 < old(self).toks().len(),
            old(self).toks()[old(self).cur() + 1].kind is Assign,
        ensures
            final(self).wf(),
            final(self).toks() == old(self).toks(),
            ({
                let sp = parse_one_stmt(old(self).toks(), old(self).cur());
                match r {
                    Result::Ok(st) => (sp matches StmtR::One(sm, j) && final(self).cur() == j
                        && old(self).cur() < j <= final(self).toks().len() && st@ == sm),
                    Result::Err(le) => (sp matches StmtR::Fail(m) && le matches
                        LoxError::ParseError(pm) && pm@ == m),
                }
            }),
    {
        proof {
            reveal(parse_one_stmt);
        }
        let varname: String = match self.peek() {
            Option::Some(t) => match &t.kind {
                TokenKind::Identifier(s) => s.clone(),
                _ => {
                    proof {
                        reveal_strlit("Expected identifier");
                    }
                    return Result::Err(
                        LoxError::ParseError(String::from_str("Expected identifier")),
                    );
                },
            },
            Option::None => {
                proof {
                    reveal_strlit("Expected identifier");
                }
                return Result::Err(LoxError::ParseError(String::from_str("Expected identifier")));
            },
        };
        self.to_next_token();
        self.to_next_token();
        let value = match self.expression() {
            Result::Err(e) => {
                return Result::Err(e);
            },
            Result::Ok(e) => e,
        };
        match self.expect_semicolon() {
            Result::Err(e) => {
                return Result::Err(e);
            },
            Result::Ok(u) => {},
        }
        Result::Ok(Statement::Assign(varname, Box::new(value)))
    }

    /// Dispatches on the current token and parses one statement.
    #[verifier::rlimit(100)]
    fn statement_one(&mut self, stmts: &mut Vec<Statement>) -> (r: Result<(), LoxError>)
        requires
            old(self).wf(),
            old(self).cur() < old(self).toks().len(),
        ensures
            final(self).wf(),
            final(self).toks() == old(self).toks(),
            ({
                let sp = parse_one_stmt(old(self).toks(), old(self).cur());
                match r {
                    Result::Ok(u) => (sp matches StmtR::One(sm, j) && final(self).cur() == j && old(
                        self,
                    ).cur() < j <= final(self).toks().len() && final(stmts)@ == old(stmts)@.push(
                        final(stmts)@.last(),
                    ) && final(stmts)@.last()@ == sm),
                    Result::Err(le) => (sp matches StmtR::Fail(m) && le matches
                        LoxError::ParseError(pm) && pm@ == m),
                }
            }),
    {
        proof {
            reveal(parse_one_stmt);
        }
        let is_print = matches!(self.peek(), Option::Some(t) if matches!(t.kind, TokenKind::Print));
        let is_let = matches!(self.peek(), Option::Some(t) if matches!(t.kind, TokenKind::Let));
        let is_ident = matches!(self.peek(), Option::Some(t) if matches!(t.kind, TokenKind::Identifier(_)));
        let n = self.tokens.len();
        let next_is_assign = self.cursor < n && n - self.cursor > 1 && matches!(
            self.tokens[self.cursor + 1].kind,
            TokenKind::Assign,
        );
        if is_print {
            self.print_statement(stmts)
        } else if is_let {
            self.variable_declaration(stmts)
        } else if is_ident && next_is_assign {
            match self.assignment() {
                Result::Err(e) => Result::Err(e),
                Result::Ok(st) => {
                    stmts.push(st);
                    proof {
                        assert(final(stmts)@ =~= old(stmts)@.push(final(stmts)@.last()));
                    }
                    Result::Ok(())
                },
            }
        } else {
            match self.expression() {
                Result::Err(e) => Result::Err(e),
                Result::Ok(e) => {
                    stmts.push(Statement::Expr(Box::new(e)));
                    proof {
                        assert(final(stmts)@ =~= old(stmts)@.push(final(stmts)@.last()));
                    }
                    Result::Ok(())
                },
            }
        }
    }

    /// Parses statements until the tokens run out; the first structural
    /// error is fatal.
    #[verifier::loop_isolation(false)]
    pub fn statement(&mut self) -> (r: Result<Vec<Statement>, LoxError>)
        requires
            old(self).wf(),
        ensures
            final(self).wf(),
            final(self).toks() == old(self).toks(),
            ({
                let sp = parse_stmts(old(self).toks(), old(self).cur());
                match r {
                    Result::Ok(stmts) => (sp matches StmtsR::Parsed(sm, end) && stmts@.map_values(
                        |s: Statement| s@,
                    ) == sm && final(self).cur() == end),
                    Result::Err(le) => (sp matches StmtsR::Fail(m) && le matches
                        LoxError::ParseError(pm) && pm@ == m),
                }
            }),
    {
        let ghost ts = self.toks();
        let ghost i0 = self.cur();
        let mut stmts: Vec<Statement> = Vec::new();
        while self.cursor < self.tokens.len()
            invariant
                self.wf(),
                self.toks() == ts,
                i0 <= self.cur() <= ts.len(),
                ({
                    let done = stmts@.map_values(|s: Statement| s@);
                    match parse_stmts(ts, self.cur()) {
                        StmtsR::Fail(m) => parse_stmts(ts, i0) == StmtsR::Fail(m),
                        StmtsR::Parsed(rest, end) => parse_stmts(ts, i0) == StmtsR::Parsed(
                            done + rest,
                            end,
                        ),
                    }
                }),
            decreases ts.len() - self.cur(),
        {
            let ghost done_pre = stmts@.map_values(|s: Statement| s@);
            match self.statement_one(&mut stmts) {
                Result::Err(e) => {
                    return Result::Err(e);
                },
                Result::Ok(u) => {},
            }
            proof {
                let done = stmts@.map_values(|s: Statement| s@);
                assert(done =~= done_pre.push(done.last()));
                match parse_stmts(ts, self.cur()) {
                    StmtsR::Fail(m) => {},
                    StmtsR::Parsed(rest, end) => {
                        assert((done_pre + (seq![done.last()] + rest)) =~= (done + rest));
                    },
                }
            }
        }
        proof {
            assert(stmts@.map_values(|s: Statement| s@) =~= stmts@.map_values(|s: Statement| s@)
                + Seq::<StatementM>::empty());
        }
        Result::Ok(stmts)
    }

    /// Parses the whole token stream into a program.
    pub fn parse(&mut self) -> (r: Result<Vec<Statement>, LoxError>)
        requires
            old(self).wf(),
        ensures
            final(self).wf(),
            final(self).toks() == old(self).toks(),
            ({
                let sp = parse_stmts(old(self).toks(), old(self).cur());
                match r {
                    Result::Ok(stmts) => (sp matches StmtsR::Parsed(sm, end) && stmts@.map_values(
                        |s: Statement| s@,
                    ) == sm && final(self).cur() == end),
                    Result::Err(le) => (sp matches StmtsR::Fail(m) && le matches
                        LoxError::ParseError(pm) && pm@ == m),
                }
            }),
    {
        self.statement()
    }
}

} // verus!
