use lox::ast::{Expression, LiteralKind, Statement};
use lox::decimal::Dec;
use lox::error::ErrorBag;
use lox::lexer::{Lexer, TokenKind};
use lox::parser::Parser;

fn parse_all(src: &str) -> Vec<Statement> {
    let mut bag = ErrorBag::new();
    let mut lexer = Lexer::new(String::from(src));
    let tokens = lexer.tokenize(&mut bag);
    assert!(bag.errors.is_empty());
    let mut parser = Parser::new(tokens);
    parser.parse().expect("parse failed")
}

#[test]
fn precedence_parses_one_plus_two_times_three_right_heavy() {
    let stmts = parse_all("print 1 + 2 * 3;");
    assert_eq!(stmts.len(), 1);
    let expr = match &stmts[0] {
        Statement::Print(e) => e,
        _ => panic!("expected a print statement"),
    };
    // 1 + (2 * 3): Binary(Plus, 1, Binary(Asterisk, 2, 3))
    let top = match &**expr {
        Expression::Binary(b) => b,
        _ => panic!("expected a binary node"),
    };
    assert!(matches!(top.operator.kind, TokenKind::Plus));
    assert!(matches!(
        &*top.lhs,
        Expression::Literal(LiteralKind::Integer(1))
    ));
    let rhs = match &*top.rhs {
        Expression::Binary(b) => b,
        _ => panic!("expected the product on the right"),
    };
    assert!(matches!(rhs.operator.kind, TokenKind::Asterisk));
    assert!(matches!(
        &*rhs.lhs,
        Expression::Literal(LiteralKind::Integer(2))
    ));
    assert!(matches!(
        &*rhs.rhs,
        Expression::Literal(LiteralKind::Integer(3))
    ));
}

#[test]
fn grouping_overrides_precedence() {
    let stmts = parse_all("print (1 + 2) * 3;");
    let expr = match &stmts[0] {
        Statement::Print(e) => e,
        _ => panic!("expected a print statement"),
    };
    let top = match &**expr {
        Expression::Binary(b) => b,
        _ => panic!("expected a binary node"),
    };
    assert!(matches!(top.operator.kind, TokenKind::Asterisk));
    assert!(matches!(&*top.lhs, Expression::Grouping(_)));
}

#[test]
fn statement_forms_parse() {
    let stmts = parse_all("let x = 1; x = 2; print x; 1 + 1");
    assert_eq!(stmts.len(), 4);
    assert!(matches!(&stmts[0], Statement::Let(n, _) if n == "x"));
    assert!(matches!(&stmts[1], Statement::Assign(n, _) if n == "x"));
    assert!(matches!(&stmts[2], Statement::Print(_)));
    assert!(matches!(&stmts[3], Statement::Expr(_)));
}

#[test]
fn equality_is_left_associative() {
    let stmts = parse_all("print 1 == 2 == 3;");
    let expr = match &stmts[0] {
        Statement::Print(e) => e,
        _ => panic!("expected a print statement"),
    };
    // (1 == 2) == 3
    let top = match &**expr {
        Expression::Binary(b) => b,
        _ => panic!("expected a binary node"),
    };
    assert!(matches!(top.operator.kind, TokenKind::Equal));
    assert!(matches!(&*top.lhs, Expression::Binary(_)));
    assert!(matches!(
        &*top.rhs,
        Expression::Literal(LiteralKind::Integer(3))
    ));
}

#[test]
fn decimals_are_exact_scaled_integers() {
    let d = Dec::new(25, 1);
    assert_eq!(d.to_text(), "2.5");
    assert_eq!(d.mantissa(), 25);
    assert_eq!(d.scale(), 1);

    // trailing fraction zeros normalize away
    let e = Dec::new(250, 2);
    assert_eq!(e.mantissa(), 25);
    assert_eq!(e.scale(), 1);
    assert!(d.eq_val(&e));

    let whole = Dec::new(40, 1);
    assert_eq!(whole.to_text(), "4");

    let small = Dec::new(5, 2);
    assert_eq!(small.to_text(), "0.05");

    let third = Dec::new(1, 0).checked_div(&Dec::new(3, 0)).unwrap();
    assert_eq!(third.to_text(), "0.333333333");

    let sum = Dec::new(15, 1).checked_add(&Dec::new(25, 1)).unwrap();
    assert_eq!(sum.to_text(), "4");

    assert!(Dec::new(1, 1).lt_val(&Dec::new(2, 1)));
    assert!(Dec::new(-25, 1).to_text() == "-2.5");
}
