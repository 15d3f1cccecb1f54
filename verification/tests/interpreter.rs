use parser::error::CompilerError;
use parser::evaluator::Evaluator;
use parser::lexer::Lexer;
use parser::parser::Parser;
use parser::parser::SyntaxError;
use parser::token::Span;
use parser::token::Token;
use parser::token::TokenKind;

fn tok(kind: TokenKind, start: usize, end: usize) -> Token {
    Token { kind, span: Span { start, end } }
}

fn parse(input: &str) -> Result<i32, CompilerError> {
    let mut lexer = Lexer::new(input);
    let tokens = lexer.lex()?;
    let expr = Parser::new(tokens).parse()?;
    let mut evaluator = Evaluator::new();

    Ok(evaluator.eval(&expr)?)
}

#[test]
fn main_sum() {
    let result = parse("1 + 2;");
    assert_eq!(result, Ok(3));
}

#[test]
fn main_difference() {
    let result = parse("1 - 2 - 3;");
    assert_eq!(result, Ok(-4));
}

#[test]
fn main_sum_3_operand() {
    let result = parse("1 + 2 + 3;");
    assert_eq!(result, Ok(6));
}

#[test]
fn main_prod_3_operand() {
    let result = parse("1*2*3;");
    assert_eq!(result, Ok(6));
}

#[test]
fn main_process_with_priority() {
    let result = parse("1+2*3;");
    assert_eq!(result, Ok(7));
}

#[test]
fn main_without_space() {
    let result = parse("1+2;");
    assert_eq!(result, Ok(3));
}

#[test]
fn main_with_paren() {
    let result = parse("(1+2);");
    assert_eq!(result, Ok(3));
}

#[test]
fn main_with_paren_precedence() {
    let result = parse("(1+2)*3;");
    assert_eq!(result, Ok(9));
}

#[test]
fn power() {
    let result = parse("10^2;");
    assert_eq!(result, Ok(100));
}

#[test]
fn gt_true() {
    let result = parse("1>0;");
    assert_eq!(result, Ok(1));
}

#[test]
fn gt_false() {
    let result = parse("1>2;");
    assert_eq!(result, Ok(0));
}

#[test]
fn gt_eq_true() {
    let result = parse("1>=1;");
    assert_eq!(result, Ok(1));
}

#[test]
fn gt_eq_false() {
    let result = parse("1>=2;");
    assert_eq!(result, Ok(0));
}

#[test]
fn lt_true() {
    let result = parse("1<2;");
    assert_eq!(result, Ok(1));
}

#[test]
fn lt_false() {
    let result = parse("1<0;");
    assert_eq!(result, Ok(0));
}

#[test]
fn lt_eq_true() {
    let result = parse("1<=1;");
    assert_eq!(result, Ok(1));
}

#[test]
fn lt_eq_false() {
    let result = parse("1<=0;");
    assert_eq!(result, Ok(0));
}

#[test]
fn main_unmatched_left_paren() {
    let result = parse("(1+2");
    assert_eq!(
        result,
        Err(SyntaxError::UnmatchedLeftParen(tok(TokenKind::LeftParen, 0, 1)).into())
    );
}

#[test]
fn main_unmatched_right_paren() {
    let result = parse("1+2)");
    assert_eq!(
        result,
        Err(SyntaxError::UnexpectedToken(tok(TokenKind::RightParen, 3, 4)).into())
    );
}

#[test]
fn main_unary_minus() {
    let result = parse("-1;");
    assert_eq!(result, Ok(-1));
}

#[test]
fn unexpected_eof() {
    let result = parse("-");
    assert_eq!(result, Err(SyntaxError::UnexpectedEof.into()));
}

#[test]
fn assignment() {
    let result = parse("x=2; x;");
    assert_eq!(result, Ok(2));
}

#[test]
fn invalid_assignment() {
    let result = parse("1=2;");
    assert_eq!(
        result,
        Err(SyntaxError::InvalidAssignmentTarget(tok(TokenKind::Assign, 1, 2)).into())
    );
}

#[test]
fn if_statement() {
    let result = parse("x=0; if (1>=0) {x=2;} x;");

    assert_eq!(result, Ok(2),);
}

#[test]
fn while_statement() {
    let result = parse("x=0; while(x<1){x=1;} x;");

    assert_eq!(result, Ok(1),);
}

#[test]
fn for_statement() {
    let result = parse("for (ans=i=0; i<10; i=i+1) {ans = ans + i;} ans;");

    assert_eq!(result, Ok(45),);
}

#[test]
fn for_with_empty_clause() {
    let result = parse("for (x=0;;) { x=1; } x;");
    assert_eq!(result, Ok(0));
}

#[test]
fn fibonatti() {
    let result =
        parse("n=10; a=0; b=1; for (i=0; i<n; i=i+1) { tmp = a; a = b; b = tmp + b;} a;");
    assert_eq!(result, Ok(55));
}

#[test]
fn block_statement() {
    let result = parse("{ foo = 1; } foo;");
    assert_eq!(result, Ok(1));
}

#[test]
fn eq_true() {
    let result = parse("1==1;");
    assert_eq!(result, Ok(1));
}

#[test]
fn eq_false() {
    let result = parse("1==0;");
    assert_eq!(result, Ok(0));
}

#[test]
fn neq_true() {
    let result = parse("1!=0;");
    assert_eq!(result, Ok(1));
}

#[test]
fn neq_false() {
    let result = parse("1!=1;");
    assert_eq!(result, Ok(0));
}
