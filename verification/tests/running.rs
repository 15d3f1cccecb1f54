use parser::environment::Environment;
use parser::error::format_error;
use parser::error::CompilerError;
use parser::error::Describe;
use parser::evaluator::apply;
use parser::evaluator::divide;
use parser::evaluator::power;
use parser::evaluator::Evaluator;
use parser::evaluator::RuntimeError;
use parser::ast::BinaryOp;
use parser::lexer::Lexer;
use parser::lexer::LexicalError;
use parser::parser::Parser;
use parser::parser::SyntaxError;
use parser::pipeline::interpret;
use parser::pipeline::interpret_within;
use parser::token::Span;
use parser::token::Spanned;
use parser::token::Token;
use parser::token::TokenKind;

fn runtime(e: RuntimeError) -> Result<i32, CompilerError> {
    Err(CompilerError::Runtime(e))
}

#[test]
fn scenarios() {
    assert_eq!(interpret("1+2*3;"), Ok(7));
    assert_eq!(interpret("(1+2)*3;"), Ok(9));
    assert_eq!(interpret("-1;"), Ok(-1));
    assert_eq!(interpret("10^2;"), Ok(100));
    assert_eq!(interpret("x=0; while(x<1){x=1;} x;"), Ok(1));
    assert_eq!(interpret("for (ans=i=0; i<10; i=i+1) {ans = ans + i;} ans;"), Ok(45));
    assert_eq!(interpret("for (x=0;;) { x=1; } x;"), Ok(0));
}

#[test]
fn arithmetic_is_the_conventional_one() {
    assert_eq!(interpret("2+3*4-5;"), Ok(9));
    assert_eq!(interpret("2*3+4*5;"), Ok(26));
    assert_eq!(interpret("100-10-1;"), Ok(89));
    assert_eq!(interpret("2^3^2;"), Ok(512));
    assert_eq!(interpret("-2^2;"), Ok(-4));
    assert_eq!(interpret("(0-2)^3;"), Ok(-8));
    assert_eq!(interpret("2^0;"), Ok(1));
    assert_eq!(interpret("0^0;"), Ok(1));
    assert_eq!(interpret("1+2<4;"), Ok(1));
    assert_eq!(interpret("1<2==1;"), Ok(1));
    assert_eq!(interpret("46341*46340;"), Ok(2147441940));
}

#[test]
fn division_truncates_towards_zero() {
    assert_eq!(interpret("7/2;"), Ok(3));
    assert_eq!(interpret("-7/2;"), Ok(-3));
    assert_eq!(interpret("7/-2;"), Ok(-3));
    assert_eq!(interpret("-7/-2;"), Ok(3));
    assert_eq!(interpret("8/4/2;"), Ok(1));
    assert_eq!(divide(-7, 2), -3);
    assert_eq!(divide(i32::MIN, -1), i32::MIN);
}

#[test]
fn arithmetic_wraps_at_32_bits() {
    assert_eq!(interpret("2147483647+1;"), Ok(-2147483648));
    assert_eq!(interpret("0-2147483647-2;"), Ok(2147483647));
    assert_eq!(interpret("65536*65536;"), Ok(0));
    assert_eq!(interpret("-(0-2147483647-1);"), Ok(-2147483648));
    assert_eq!(interpret("(0-2147483647-1)/-1;"), Ok(-2147483648));
    assert_eq!(interpret("2^31;"), Ok(-2147483648));
    assert_eq!(interpret("2^32;"), Ok(0));
    assert_eq!(power(3, 4), 81);
    assert_eq!(power(-1, 5), -1);
    assert_eq!(power(7, 0), 1);
}

#[test]
fn division_by_zero_is_an_error() {
    assert_eq!(interpret("1/0;"), runtime(RuntimeError::DivisionByZero));
    assert_eq!(interpret("x=0; 5/x;"), runtime(RuntimeError::DivisionByZero));
    assert_eq!(interpret("1/(2-2)+y;"), runtime(RuntimeError::DivisionByZero));
    assert_eq!(apply(BinaryOp::Div, 1, 0), Err(RuntimeError::DivisionByZero));
}

#[test]
fn reading_an_unbound_variable_is_an_error() {
    assert_eq!(interpret("x;"), runtime(RuntimeError::UnboundVariable("x".to_string())));
    assert_eq!(interpret("y=x;"), runtime(RuntimeError::UnboundVariable("x".to_string())));
    assert_eq!(
        interpret("if (0) { x = 1; } x;"),
        runtime(RuntimeError::UnboundVariable("x".to_string()))
    );
    assert_ne!(interpret("x;"), interpret("1/0;"));
}

#[test]
fn negative_exponent_is_an_error() {
    assert_eq!(interpret("2^-1;"), runtime(RuntimeError::NegativeExponent));
    assert_eq!(apply(BinaryOp::Pow, 2, -1), Err(RuntimeError::NegativeExponent));
}

#[test]
fn loops_stop_when_the_budget_is_used_up() {
    assert_eq!(interpret_within("while(1){}", 3), runtime(RuntimeError::StepLimitExceeded));
    assert_eq!(interpret_within("for(;1;){}", 0), runtime(RuntimeError::StepLimitExceeded));
    assert_eq!(interpret_within("i=0; while(i<3){i=i+1;} i;", 3), Ok(3));
    assert_eq!(
        interpret_within("i=0; while(i<3){i=i+1;} i;", 2),
        runtime(RuntimeError::StepLimitExceeded)
    );
    assert_eq!(interpret_within("while(0){}", 0), Ok(0));
    assert_eq!(
        interpret_within("for(i=0;i<2;i=i+1){ for(j=0;j<2;j=j+1){} }", 5),
        runtime(RuntimeError::StepLimitExceeded)
    );
    assert_eq!(interpret_within("for(i=0;i<2;i=i+1){ for(j=0;j<2;j=j+1){} }", 6), Ok(0));
}

#[test]
fn operators_on_numbers() {
    assert_eq!(apply(BinaryOp::Plus, 2, 3), Ok(5));
    assert_eq!(apply(BinaryOp::Minus, 2, 3), Ok(-1));
    assert_eq!(apply(BinaryOp::Mul, 2, 3), Ok(6));
    assert_eq!(apply(BinaryOp::Div, 7, 2), Ok(3));
    assert_eq!(apply(BinaryOp::Pow, 2, 3), Ok(8));
    assert_eq!(apply(BinaryOp::Eq, 2, 2), Ok(1));
    assert_eq!(apply(BinaryOp::Neq, 2, 2), Ok(0));
    assert_eq!(apply(BinaryOp::Gt, 3, 2), Ok(1));
    assert_eq!(apply(BinaryOp::GtEq, 2, 3), Ok(0));
    assert_eq!(apply(BinaryOp::Lt, 2, 3), Ok(1));
    assert_eq!(apply(BinaryOp::LtEq, 3, 3), Ok(1));
    assert_eq!(apply(BinaryOp::Assign, 2, 3), Ok(3));
}

#[test]
fn values_of_statements() {
    assert_eq!(interpret("{}"), Ok(0));
    assert_eq!(interpret("{ 1; 2; }"), Ok(2));
    assert_eq!(interpret("5; {}"), Ok(0));
    assert_eq!(interpret("if (1) { 7; }"), Ok(7));
    assert_eq!(interpret("if (0) { 7; }"), Ok(0));
    assert_eq!(interpret("if (-1) { 7; }"), Ok(0));
    assert_eq!(interpret("if (1) { }"), Ok(0));
    assert_eq!(interpret("while (0) { 7; }"), Ok(0));
    assert_eq!(interpret("i=0; while (i<3) { i=i+1; i*10; }"), Ok(30));
    assert_eq!(interpret("i=0; while (i<3) { i=i+1; if (i<3) { i*10; } }"), Ok(0));
    assert_eq!(interpret("for (i=5; i<5; i=i+1) { 9; }"), Ok(5));
    assert_eq!(interpret("for (i=5; 0; ) { }"), Ok(5));
    assert_eq!(interpret("i=0; for (; i<2; i=i+1) { }"), Ok(0));
    assert_eq!(interpret("for (i=0; i<2; i=i+1) { i+40; }"), Ok(41));
    assert_eq!(interpret("for (i=7;;) { 9; }"), Ok(0));
    assert_eq!(interpret("x = y = 3; x + y;"), Ok(6));
    assert_eq!(interpret("(x = 2) * x;"), Ok(4));
    assert_eq!(interpret("x = 1; x = x + 1; x;"), Ok(2));
}

#[test]
fn an_error_keeps_what_was_assigned_before_it() {
    let tokens = Lexer::new("x = 4; y = 1/0;").lex().unwrap();
    let program = Parser::new(tokens).parse().unwrap();
    let mut evaluator = Evaluator::new();
    assert_eq!(evaluator.eval(&program), Err(RuntimeError::DivisionByZero));
    let tokens = Lexer::new("x;").lex().unwrap();
    let program = Parser::new(tokens).parse().unwrap();
    assert_eq!(evaluator.eval(&program), Ok(4));
    let tokens = Lexer::new("y;").lex().unwrap();
    let program = Parser::new(tokens).parse().unwrap();
    assert_eq!(evaluator.eval(&program), Err(RuntimeError::UnboundVariable("y".to_string())));
}

#[test]
fn environment_remembers_the_last_value() {
    let mut env = Environment::new();
    assert_eq!(env.get("x"), None);
    env.define("x", 1);
    env.define("y", 2);
    assert_eq!(env.get("x"), Some(1));
    assert_eq!(env.get("y"), Some(2));
    env.define("x", 3);
    assert_eq!(env.get("x"), Some(3));
    assert_eq!(env.get("y"), Some(2));
    assert_eq!(env.get("z"), None);
    assert_eq!(env.get(""), None);
    env.bind(&"z".to_string(), -5);
    assert_eq!(env.value_of(&"z".to_string()), Some(-5));
}

#[test]
fn errors_of_every_stage() {
    assert_eq!(
        interpret("1 + $;"),
        Err(CompilerError::Lexical(LexicalError::InvalidToken(
            "$".to_string(),
            Span { start: 4, end: 5 }
        )))
    );
    assert_eq!(interpret("1 +"), Err(CompilerError::Syntax(SyntaxError::UnexpectedEof)));
    assert_eq!(interpret("1/0;"), Err(CompilerError::Runtime(RuntimeError::DivisionByZero)));
    let lexical: CompilerError = LexicalError::Eof.into();
    assert_eq!(lexical, CompilerError::Lexical(LexicalError::Eof));
    let syntax: CompilerError = SyntaxError::UnexpectedEof.into();
    assert_eq!(syntax, CompilerError::Syntax(SyntaxError::UnexpectedEof));
    let running: CompilerError = RuntimeError::NegativeExponent.into();
    assert_eq!(running, CompilerError::Runtime(RuntimeError::NegativeExponent));
}

#[test]
fn messages() {
    let plus = Token { kind: TokenKind::Plus, span: Span { start: 0, end: 1 } };
    let five = Token { kind: TokenKind::Num(-5), span: Span { start: 0, end: 1 } };
    let name = Token { kind: TokenKind::Ident("ab".to_string()), span: Span { start: 0, end: 2 } };
    assert_eq!(
        LexicalError::InvalidToken("$".to_string(), Span { start: 0, end: 1 }).message(),
        "Invalid token: $"
    );
    assert_eq!(LexicalError::Eof.message(), "End of File");
    assert_eq!(SyntaxError::UnmatchedLeftParen(plus.duplicate()).message(), "Unmatched left parenthesis");
    assert_eq!(SyntaxError::UnexpectedToken(plus.duplicate()).message(), "Unexpected token: Plus");
    assert_eq!(SyntaxError::UnexpectedToken(five).message(), "Unexpected token: Num(-5)");
    assert_eq!(SyntaxError::UnexpectedToken(name).message(), "Unexpected token: Ident(\"ab\")");
    assert_eq!(
        SyntaxError::InvalidAssignmentTarget(plus).message(),
        "Invalid assignment target: Plus"
    );
    assert_eq!(SyntaxError::UnexpectedEof.message(), "Unexpected end of file");
    assert_eq!(RuntimeError::DivisionByZero.message(), "Division by zero");
    assert_eq!(RuntimeError::UnboundVariable("x".to_string()).message(), "Unbound variable: x");
    assert_eq!(RuntimeError::NegativeExponent.message(), "Negative exponent");
    assert_eq!(RuntimeError::StepLimitExceeded.message(), "Step limit exceeded");
    assert_eq!(
        CompilerError::Lexical(LexicalError::Eof).message(),
        "Lexical error: End of File"
    );
    assert_eq!(
        CompilerError::Syntax(SyntaxError::UnexpectedEof).message(),
        "Syntax error: Unexpected end of file"
    );
    assert_eq!(
        CompilerError::Runtime(RuntimeError::DivisionByZero).message(),
        "Runtime error: Division by zero"
    );
    assert_eq!(RuntimeError::DivisionByZero.span(), None);
}

#[test]
fn an_error_is_shown_under_its_source() {
    let source = "1 + +";
    let e = interpret(source).unwrap_err();
    assert_eq!(format_error(&e, source), "Syntax error: Unexpected token: Plus\n1 + +\n    ^");
    let source = "ab >= $$";
    let e = interpret(source).unwrap_err();
    assert_eq!(format_error(&e, source), "Lexical error: Invalid token: $\nab >= $$\n      ^");
    let source = "1 +";
    let e = interpret(source).unwrap_err();
    assert_eq!(format_error(&e, source), "Syntax error: Unexpected end of file\n1 +");
    let source = "x;";
    let e = interpret(source).unwrap_err();
    assert_eq!(format_error(&e, source), "Runtime error: Unbound variable: x\nx;");
    let backwards = SyntaxError::UnexpectedToken(Token {
        kind: TokenKind::Gt,
        span: Span { start: 2, end: 1 },
    });
    assert_eq!(format_error(&backwards, "a"), "Unexpected token: Gt\na\n  ");
    let wide = LexicalError::InvalidToken("12345".to_string(), Span { start: 1, end: 6 });
    assert_eq!(format_error(&wide, "(12345"), "Invalid token: 12345\n(12345\n ^^^^^");
}
