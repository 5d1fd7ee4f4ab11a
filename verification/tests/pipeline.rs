use lox::error::LoxError;
use lox::run_source;

fn run(src: &str) -> lox::RunOutcome {
    run_source(String::from(src))
}

fn output_lines(src: &str) -> Vec<String> {
    let out = run(src);
    assert!(out.lex_messages.is_empty(), "unexpected lexical errors");
    assert!(out.fatal.is_none(), "unexpected fatal error");
    out.output
}

#[test]
fn integer_addition_is_exact() {
    assert_eq!(output_lines("print 1 + 2;"), vec![String::from("3")]);
    assert_eq!(output_lines("print 1000000 + 2000000;"), vec![String::from("3000000")]);
}

#[test]
fn integer_subtraction_is_exact() {
    assert_eq!(output_lines("print 7 - 10;"), vec![String::from("-3")]);
}

#[test]
fn integer_multiplication_is_exact() {
    assert_eq!(output_lines("print 6 * 7;"), vec![String::from("42")]);
}

#[test]
fn integer_division_truncates_and_stays_integer() {
    assert_eq!(output_lines("print 7 / 2;"), vec![String::from("3")]);
    assert_eq!(output_lines("print (0 - 7) / 2;"), vec![String::from("-3")]);
    assert_eq!(output_lines("print 7 % 3;"), vec![String::from("1")]);
}

#[test]
fn numeric_promotion_to_decimal() {
    assert_eq!(output_lines("print 1 + 2.5;"), vec![String::from("3.5")]);
    assert_eq!(output_lines("print 2.0 + 2;"), vec![String::from("4")]);
}

#[test]
fn equality_special_cases_none() {
    assert_eq!(output_lines("print None == None;"), vec![String::from("true")]);
    assert_eq!(output_lines("print None == 5;"), vec![String::from("false")]);
    assert_eq!(output_lines("print None != 5;"), vec![String::from("true")]);
}

#[test]
fn bang_on_none_is_true() {
    assert_eq!(output_lines("print !None;"), vec![String::from("true")]);
}

#[test]
fn precedence_factor_binds_tighter() {
    assert_eq!(output_lines("print 1 + 2 * 3;"), vec![String::from("7")]);
    assert_eq!(output_lines("print (1 + 2) * 3;"), vec![String::from("9")]);
}

#[test]
fn rebinding_is_visible_to_later_prints() {
    let lines = output_lines("let x = 1; print x; let x = x + 1; print x;");
    assert_eq!(lines, vec![String::from("1"), String::from("2")]);
}

#[test]
fn a_binding_reads_the_current_environment() {
    // The environment stores unevaluated expressions, re-evaluated on
    // every reference: rebinding x changes what y yields.
    let lines = output_lines("let x = 1; let y = x + 1; print y; let x = 5; print y;");
    assert_eq!(lines, vec![String::from("2"), String::from("6")]);
}

#[test]
fn a_name_inside_its_own_binding_reads_the_previous_one() {
    // Only the name being resolved is capped below its own binding, so a
    // chain of self-referential rebindings unwinds to the oldest value.
    let lines = output_lines("let x = 1; let x = x + 1; let x = x + 1; print x;");
    assert_eq!(lines, vec![String::from("3")]);
}

#[test]
fn mutually_referential_bindings_resolve() {
    let lines = output_lines("let x = 1; let y = x; let x = y + 1; print x;");
    assert_eq!(lines, vec![String::from("2")]);
}

#[test]
fn unbound_name_is_fatal_and_prints_nothing() {
    let out = run("print y;");
    assert!(out.lex_messages.is_empty());
    assert!(out.output.is_empty());
    match out.fatal {
        Some(LoxError::RuntimeError(m)) => assert_eq!(m, "Unbound name y"),
        _ => panic!("expected a runtime error"),
    }
}

#[test]
fn unterminated_string_fills_the_bag_once() {
    let out = run("\"abc");
    assert_eq!(out.lex_messages.len(), 1);
    assert_eq!(out.lex_messages[0], "Unterminated string at line 1");
    assert!(out.output.is_empty());
    assert!(out.fatal.is_none());
}

#[test]
fn missing_semicolon_is_a_fatal_parse_error() {
    let out = run("print 1");
    assert!(out.output.is_empty());
    match out.fatal {
        Some(LoxError::ParseError(m)) => {
            assert_eq!(m, "Expected semicolon at end of statement at end of file");
        }
        _ => panic!("expected a parse error"),
    }
}

#[test]
fn assignment_statement_rebinds() {
    assert_eq!(
        output_lines("let x = 1; x = 2; print x;"),
        vec![String::from("2")]
    );
}

#[test]
fn let_without_initializer_binds_none() {
    assert_eq!(output_lines("let x; print x;"), vec![String::from("None")]);
}

#[test]
fn comments_are_filtered_out() {
    assert_eq!(
        output_lines("print 1; // a comment\nprint 2;"),
        vec![String::from("1"), String::from("2")]
    );
}

#[test]
fn strings_and_booleans_print_their_text() {
    assert_eq!(output_lines("print \"hi\";"), vec![String::from("hi")]);
    assert_eq!(output_lines("print true;"), vec![String::from("true")]);
    assert_eq!(output_lines("print false;"), vec![String::from("false")]);
    assert_eq!(output_lines("print None;"), vec![String::from("None")]);
}

#[test]
fn unary_minus_negates_numbers() {
    assert_eq!(output_lines("print -5;"), vec![String::from("-5")]);
    assert_eq!(output_lines("print --5;"), vec![String::from("5")]);
    assert_eq!(output_lines("print -2.5;"), vec![String::from("-2.5")]);
}

#[test]
fn comparisons_promote_numbers() {
    assert_eq!(output_lines("print 1 < 2.5;"), vec![String::from("true")]);
    assert_eq!(output_lines("print 2 == 2.0;"), vec![String::from("true")]);
    assert_eq!(output_lines("print 3 >= 4;"), vec![String::from("false")]);
    assert_eq!(output_lines("print true > false;"), vec![String::from("true")]);
}

#[test]
fn decimal_division_and_remainder() {
    assert_eq!(output_lines("print 5.0 / 2.0;"), vec![String::from("2.5")]);
    assert_eq!(output_lines("print 7.5 % 2.0;"), vec![String::from("1.5")]);
    assert_eq!(output_lines("print 1.0 / 3.0;"), vec![String::from("0.333333333")]);
}

#[test]
fn decimal_sums_differences_products_are_exact() {
    assert_eq!(output_lines("print 2.5 - 0.5;"), vec![String::from("2")]);
    assert_eq!(output_lines("print 1.5 * 2.0;"), vec![String::from("3")]);
    assert_eq!(output_lines("print 0.1 + 0.2;"), vec![String::from("0.3")]);
    assert_eq!(output_lines("print 2.5 <= 2.5;"), vec![String::from("true")]);
}

#[test]
fn a_fraction_too_fine_to_store_overflows() {
    let out = run("print 0.0000000001 * 0.0000000001;");
    match out.fatal {
        Some(LoxError::RuntimeError(m)) => assert_eq!(m, "Arithmetic overflow"),
        _ => panic!("expected a runtime error"),
    }
}

#[test]
fn unary_minus_on_a_string_is_a_runtime_error() {
    let out = run("print -\"a\";");
    match out.fatal {
        Some(LoxError::RuntimeError(m)) => assert_eq!(
            m,
            "Unary expression Minus not allowed with operand QuotedString at line 1"
        ),
        _ => panic!("expected a runtime error"),
    }
}

#[test]
fn mixed_type_arithmetic_is_a_runtime_error() {
    let out = run("print 1 + \"a\";");
    assert!(out.output.is_empty());
    match out.fatal {
        Some(LoxError::RuntimeError(m)) => assert_eq!(
            m,
            "Binary expression not allowed between those two types Integer and QuotedString"
        ),
        _ => panic!("expected a runtime error"),
    }
}

#[test]
fn string_comparison_is_a_runtime_error() {
    let out = run("print \"a\" == \"a\";");
    assert!(matches!(out.fatal, Some(LoxError::RuntimeError(_))));
}

#[test]
fn integer_overflow_is_a_runtime_error() {
    let out = run("print 9223372036854775807 + 1;");
    match out.fatal {
        Some(LoxError::RuntimeError(m)) => assert_eq!(m, "Arithmetic overflow"),
        _ => panic!("expected a runtime error"),
    }
}

#[test]
fn division_by_zero_is_a_runtime_error() {
    let out = run("print 1 / 0;");
    match out.fatal {
        Some(LoxError::RuntimeError(m)) => assert_eq!(m, "Division by zero"),
        _ => panic!("expected a runtime error"),
    }
}

#[test]
fn unclosed_parenthesis_is_a_fatal_parse_error() {
    let out = run("print (1 + 2;");
    match out.fatal {
        Some(LoxError::ParseError(m)) => assert_eq!(m, "Unclosed parentheses"),
        _ => panic!("expected a parse error"),
    }
}

#[test]
fn let_demands_an_identifier_then_assign_or_semicolon() {
    let out = run("let 5 = 3;");
    match out.fatal {
        Some(LoxError::ParseError(m)) => assert_eq!(m, "Expected identifier"),
        _ => panic!("expected a parse error"),
    }
    let out = run("let x 5;");
    match out.fatal {
        Some(LoxError::ParseError(m)) => assert_eq!(m, "Expected assign operator"),
        _ => panic!("expected a parse error"),
    }
}

#[test]
fn expression_at_end_of_input_is_a_parse_error() {
    let out = run("print 1 +");
    match out.fatal {
        Some(LoxError::ParseError(m)) => assert_eq!(m, "Unexpected Eof"),
        _ => panic!("expected a parse error"),
    }
}

#[test]
fn unexpected_token_names_kind_and_position() {
    let out = run("print ;");
    match out.fatal {
        Some(LoxError::ParseError(m)) => assert_eq!(
            m,
            "Expected primary expression got Semicolon at line 1 column 7"
        ),
        _ => panic!("expected a parse error"),
    }
}

#[test]
fn oversized_number_literal_is_a_lexical_error() {
    let out = run("print 99999999999999999999;");
    assert_eq!(out.lex_messages.len(), 1);
    assert_eq!(
        out.lex_messages[0],
        "Number literal out of range at line 1, column 7"
    );
    assert!(out.output.is_empty());
}

#[test]
fn empty_source_runs_to_nothing() {
    let out = run("");
    assert!(out.output.is_empty());
    assert!(out.lex_messages.is_empty());
    assert!(out.fatal.is_none());
}

#[test]
fn a_fatal_error_keeps_earlier_output() {
    let out = run("print 1; print y;");
    assert_eq!(out.output, vec![String::from("1")]);
    assert!(matches!(out.fatal, Some(LoxError::RuntimeError(_))));
}
