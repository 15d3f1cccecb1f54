//! From source text to a value, or to assembly: the stages one after the other.

use crate::assembly::assembly_text;
use crate::codegen::program_code;
use crate::codegen::CodeGenerator;
use crate::error::CompilerError;
use crate::evaluator::Evaluator;
use crate::lexer::lex_from;
use crate::lexer::LexErrorView;
use crate::lexer::Lexer;
use crate::parser::parse_program;
use crate::parser::Parser;
use crate::parser::SyntaxErrorView;
use crate::semantics::exec_program;
use crate::semantics::Machine;
use crate::semantics::RuntimeErrorView;
use crate::ast::Stmt;
use vstd::prelude::*;

verus! {

/// Mathematical value of a [`CompilerError`].
pub enum CompilerErrorView {
    Lexical(LexErrorView),
    Syntax(SyntaxErrorView),
    Runtime(RuntimeErrorView),
}

impl View for CompilerError {
    type V = CompilerErrorView;

    open spec fn view(&self) -> CompilerErrorView {
        match self {
            CompilerError::Lexical(e) => CompilerErrorView::Lexical(e@),
            CompilerError::Syntax(e) => CompilerErrorView::Syntax(e@),
            CompilerError::Runtime(e) => CompilerErrorView::Runtime(e@),
        }
    }
}

/// The program that a source text spells: its tokens are read from the
/// start, then parsed from the first token.
pub open spec fn program_of(source: Seq<char>) -> Result<Seq<Stmt>, CompilerErrorView> {
    match lex_from(source, 0).result {
        Ok(tokens) => match parse_program(tokens, 0) {
            Ok(program) => Ok(program),
            Err(e) => Err(CompilerErrorView::Syntax(e)),
        },
        Err(e) => Err(CompilerErrorView::Lexical(e)),
    }
}

/// The value of a source text: that of its program, run without variables
/// and with `budget` loop runs.
pub open spec fn value_of(source: Seq<char>, budget: nat) -> Result<i32, CompilerErrorView> {
    match program_of(source) {
        Ok(program) => match exec_program(program, Machine { env: Map::empty(), budget }).value {
            Ok(v) => Ok(v),
            Err(e) => Err(CompilerErrorView::Runtime(e)),
        },
        Err(e) => Err(e),
    }
}

/// The assembly of a source text: that of its program.
pub open spec fn assembly_of(source: Seq<char>) -> Result<Seq<char>, CompilerErrorView> {
    match program_of(source) {
        Ok(program) => Ok(assembly_text(program_code(program))),
        Err(e) => Err(e),
    }
}

/// The value of an [`interpret`] result.
pub open spec fn value_view(r: Result<i32, CompilerError>) -> Result<i32, CompilerErrorView> {
    match r {
        Ok(v) => Ok(v),
        Err(e) => Err(e@),
    }
}

/// The value of a [`compile`] result.
pub open spec fn text_view(r: Result<String, CompilerError>) -> Result<
    Seq<char>,
    CompilerErrorView,
> {
    match r {
        Ok(text) => Ok(text@),
        Err(e) => Err(e@),
    }
}

/// Lexes, parses and runs a source text. Loops may run `u64::MAX` times in all.
pub fn interpret(input: &str) -> (r: Result<i32, CompilerError>)
    ensures
        value_view(r) == value_of(input@, u64::MAX as nat),
{
    interpret_within(input, u64::MAX)
}

/// Lexes, parses and runs a source text. Loops may run `limit` times in all.
pub fn interpret_within(input: &str, limit: u64) -> (r: Result<i32, CompilerError>)
    ensures
        value_view(r) == value_of(input@, limit as nat),
{
    let mut lexer = Lexer::new(input);
    let tokens = match lexer.lex() {
        Ok(tokens) => tokens,
        Err(e) => {
            return Err(CompilerError::Lexical(e));
        },
    };
    let mut parser = Parser::new(tokens);
    let program = match parser.parse() {
        Ok(program) => program,
        Err(e) => {
            return Err(CompilerError::Syntax(e));
        },
    };
    let mut evaluator = Evaluator::with_step_limit(limit);
    match evaluator.eval(&program) {
        Ok(v) => Ok(v),
        Err(e) => Err(CompilerError::Runtime(e)),
    }
}

/// Lexes and parses a source text and generates its assembly.
pub fn compile(input: &str) -> (r: Result<String, CompilerError>)
    ensures
        text_view(r) == assembly_of(input@),
{
    let mut lexer = Lexer::new(input);
    let tokens = match lexer.lex() {
        Ok(tokens) => tokens,
        Err(e) => {
            return Err(CompilerError::Lexical(e));
        },
    };
    let mut parser = Parser::new(tokens);
    let program = match parser.parse() {
        Ok(program) => program,
        Err(e) => {
            return Err(CompilerError::Syntax(e));
        },
    };
    let mut generator = CodeGenerator::new();
    Ok(generator.generate(&program))
}

} // verus!
