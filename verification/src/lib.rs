//! A small scripting-language front end and evaluator.
//!
//! Source text is lexed into a token stream with line/column positions,
//! parsed by recursive descent into a statement/expression tree, and the
//! tree is walked to produce printed lines and variable bindings. Lexical
//! diagnostics are collected in an [`error::ErrorBag`]; parse and runtime
//! errors are fatal and propagate as [`error::LoxError`] values.

pub mod ast;
pub mod decimal;
pub mod error;
pub mod interpreter;
pub mod lexer;
pub mod parser;
pub mod text;

use vstd::prelude::*;

use crate::error::{ErrorBag, LoxError};
use crate::interpreter::{run_stmts, Interpreter};
use crate::lexer::{filtered, lex_all, lemma_drained_of_pushed, Lexer};
use crate::parser::{parse_stmts, Parser, StmtsR};

verus! {

/// Everything one run of a program produces.
pub struct RunOutcome {
    /// One entry per executed `print`, in program order.
    pub output: Vec<String>,
    /// The batched lexical diagnostics, most recent first; non-empty
    /// exactly when lexing found a fault, and then nothing was run.
    pub lex_messages: Vec<String>,
    /// The fatal parse or runtime error that stopped the run, if any.
    pub fatal: Option<LoxError>,
}

/// Runs a whole program: lex, then — only when the error bag stayed
/// empty — parse, then execute. The first parse or runtime error stops
/// the run; the lines printed before it are kept.
pub fn run_source(source: String) -> (r: RunOutcome)
    requires
        source@.len() < usize::MAX,
    ensures
        ({
            let all = lex_all(source@, 0, 1, 1);
            &&& r.lex_messages@.map_values(|m: String| m@) == all.errs.reverse()
            &&& (all.errs.len() > 0 ==> r.output@.len() == 0 && r.fatal is None)
            &&& (all.errs.len() == 0 ==> match parse_stmts(filtered(all.toks), 0) {
                StmtsR::Fail(m) => (r.fatal matches Option::Some(le) && le matches
                    LoxError::ParseError(pm) && pm@ == m) && r.output@.len() == 0,
                StmtsR::Parsed(sm, end) => {
                    let run = run_stmts(Seq::empty(), sm);
                    &&& r.output@.map_values(|l: String| l@) == run.lines
                    &&& match (r.fatal, run.err) {
                        (Option::None, Option::None) => true,
                        (Option::Some(le), Option::Some(m)) => le matches LoxError::RuntimeError(
                            pm,
                        ) && pm@ == m,
                        _ => false,
                    }
                },
            })
        }),
{
    let ghost all = lex_all(source@, 0, 1, 1);
    let mut error_bag = ErrorBag::new();
    let mut lexer = Lexer::new(source);
    let tokens = lexer.tokenize(&mut error_bag);
    if error_bag.errors.len() > 0 {
        let ghost bag_view = error_bag.errors@;
        let msgs = error_bag.drain();
        proof {
            lemma_drained_of_pushed(bag_view, all.errs);
        }
        return RunOutcome { output: Vec::new(), lex_messages: msgs, fatal: Option::None };
    }
    let no_msgs: Vec<String> = Vec::new();
    proof {
        assert(no_msgs@.map_values(|m: String| m@) =~= all.errs.reverse());
    }
    let mut parser = Parser::new(tokens);
    let ast = match parser.parse() {
        Result::Err(e) => {
            return RunOutcome {
                output: Vec::new(),
                lex_messages: no_msgs,
                fatal: Option::Some(e),
            };
        },
        Result::Ok(stmts) => stmts,
    };
    let ghost program = ast@.map_values(|s: crate::ast::Statement| s@);
    let mut interpreter = Interpreter::new();
    let mut output: Vec<String> = Vec::new();
    let fatal = match interpreter.execute(ast, &mut output) {
        Result::Ok(u) => Option::None,
        Result::Err(e) => Option::Some(e),
    };
    proof {
        assert(output@.map_values(|l: String| l@) =~= run_stmts(Seq::empty(), program).lines);
    }
    RunOutcome { output: output, lex_messages: no_msgs, fatal: fatal }
}

} // verus!
