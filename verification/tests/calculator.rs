use parser::climbing::Expression;
use parser::climbing::Lexer;
use parser::climbing::LexicalError;
use parser::climbing::Parser;
use parser::climbing::Token;
use parser::climbing::Token::{LeftParen, Minus, Mul, Num, Plus, RightParen};

fn parse_expr(input: &str) -> Expression {
    let tokens = Lexer::new(input).lex().unwrap();
    let mut parser = Parser::new(tokens);
    parser.parse().unwrap()
}

fn value(src: Vec<Token>) -> i32 {
    let mut parser = Parser::new(src);
    parser.parse().unwrap().eval().unwrap()
}

fn num(v: i32) -> Box<Expression> {
    Box::new(Expression::Num(v))
}

#[test]
fn plus() {
    let input = "+";
    let mut lexer = Lexer::new(input);
    let result = lexer.lex().unwrap();

    assert_eq!(result, vec![Plus]);
}

#[test]
fn complex() {
    let input = "+ 123";
    let mut lexer = Lexer::new(input);
    let result = lexer.lex().unwrap();

    assert_eq!(result, vec![Plus, Num(123)]);
}

#[test]
fn number() {
    let input = "123";
    let mut lexer = Lexer::new(input);
    let result = lexer.lex().unwrap();

    assert_eq!(result, vec![Num(123)]);
}

#[test]
fn parenthesis() {
    let expr = parse_expr("(1)");
    assert_eq!(expr, Expression::Num(1));
}

#[test]
fn unary_minus() {
    let expr = parse_expr("-1");
    assert_eq!(
        expr,
        Expression::Unary {
            op: Token::Minus,
            expr: Box::new(Expression::Num(1))
        }
    );

    let input = "-1";
    let mut lexer = Lexer::new(input);
    let tokens = lexer.lex().unwrap();
    let result = value(tokens);

    assert_eq!(result, -1);
}

#[test]
fn parse_precedence() {
    let expr = parse_expr("1+2*3");
    // 1 + (2 * 3)
    assert_eq!(
        expr,
        Expression::Binary {
            lhs: Box::new(Expression::Num(1)),
            op: Token::Plus,
            rhs: Box::new(Expression::Binary {
                lhs: Box::new(Expression::Num(2)),
                op: Token::Mul,
                rhs: Box::new(Expression::Num(3))
            })
        }
    );
}

#[test]
fn sum() {
    let result = parse_expr("1 + 2");
    assert_eq!(
        result,
        Expression::Binary {
            lhs: Expression::Num(1).into(),
            op: Token::Plus,
            rhs: Expression::Num(2).into()
        }
    );

    let input = "1 + 2";
    let mut lexer = Lexer::new(input);
    let tokens = lexer.lex().unwrap();
    let result = value(tokens);

    assert_eq!(result, 3);
}

#[test]
fn difference() {
    let result = parse_expr("1 - 2 - 3");
    assert_eq!(
        result,
        Expression::Binary {
            lhs: Box::new(Expression::Binary {
                lhs: Box::new(Expression::Num(1)),
                op: Token::Minus,
                rhs: Box::new(Expression::Num(2)),
            }),
            op: Token::Minus,
            rhs: Box::new(Expression::Num(3)),
        }
    );

    let input = "1 - 2 - 3";
    let mut lexer = Lexer::new(input);
    let tokens = lexer.lex().unwrap();
    let result = value(tokens);

    assert_eq!(result, -4);
}

#[test]
fn sum_3_operand() {
    let result = parse_expr("1 + 2 + 3");
    assert_eq!(
        result,
        Expression::Binary {
            lhs: Box::new(Expression::Binary {
                lhs: Box::new(Expression::Num(1)),
                op: Token::Plus,
                rhs: Box::new(Expression::Num(2)),
            }),
            op: Token::Plus,
            rhs: Box::new(Expression::Num(3)),
        }
    );

    let input = "1 + 2 + 3";
    let mut lexer = Lexer::new(input);
    let tokens = lexer.lex().unwrap();
    let result = value(tokens);

    assert_eq!(result, 6);
}

#[test]
fn prod_3_operand() {
    let result = parse_expr("1*2*3");
    assert_eq!(
        result,
        Expression::Binary {
            lhs: Box::new(Expression::Binary {
                lhs: Box::new(Expression::Num(1)),
                op: Token::Mul,
                rhs: Box::new(Expression::Num(2)),
            }),
            op: Token::Mul,
            rhs: Box::new(Expression::Num(3)),
        }
    );

    let input = "1*2*3";
    let mut lexer = Lexer::new(input);
    let tokens = lexer.lex().unwrap();
    let result = value(tokens);

    assert_eq!(result, 6);
}

#[test]
fn process_with_priority() {
    let result = parse_expr("1+2*3");
    assert_eq!(
        result,
        Expression::Binary {
            lhs: Box::new(Expression::Num(1)),
            op: Token::Plus,
            rhs: Box::new(Expression::Binary {
                lhs: Box::new(Expression::Num(2)),
                op: Token::Mul,
                rhs: Box::new(Expression::Num(3)),
            })
        }
    );

    let input = "1+2*3";
    let mut lexer = Lexer::new(input);
    let tokens = lexer.lex().unwrap();
    let result = value(tokens);

    assert_eq!(result, 7);
}

#[test]
fn without_space() {
    let result = parse_expr("1+2");
    assert_eq!(
        result,
        Expression::Binary {
            lhs: Box::new(Expression::Num(1)),
            op: Token::Plus,
            rhs: Box::new(Expression::Num(2)),
        }
    );

    let input = "1+2";
    let mut lexer = Lexer::new(input);
    let tokens = lexer.lex().unwrap();
    let result = value(tokens);

    assert_eq!(result, 3)
}

#[test]
fn with_paren() {
    let result = parse_expr("(1+2)");
    assert_eq!(
        result,
        Expression::Binary {
            lhs: Box::new(Expression::Num(1)),
            op: Token::Plus,
            rhs: Box::new(Expression::Num(2)),
        }
    );

    let input = "(1+2)";
    let mut lexer = Lexer::new(input);
    let tokens = lexer.lex().unwrap();
    let result = value(tokens);

    assert_eq!(result, 3);
}

#[test]
fn with_paren_precedence() {
    let result = parse_expr("(1+2)*3");
    assert_eq!(
        result,
        Expression::Binary {
            lhs: Box::new(Expression::Binary {
                lhs: Box::new(Expression::Num(1)),
                op: Token::Plus,
                rhs: Box::new(Expression::Num(2)),
            }),
            op: Token::Mul,
            rhs: Box::new(Expression::Num(3)),
        }
    );

    let input = "(1+2)*3";
    let mut lexer = Lexer::new(input);
    let tokens = lexer.lex().unwrap();
    let result = value(tokens);

    assert_eq!(result, 9);
}

#[test]
fn unmatched_left_paren() {
    let tokens = Lexer::new("(1+2").lex().unwrap();
    assert_eq!(tokens, vec![LeftParen, Num(1), Plus, Num(2)]);
    assert_eq!(Parser::new(tokens).parse(), None);
}

#[test]
fn unmatched_right_paren() {
    let tokens = Lexer::new("1+2)").lex().unwrap();
    assert_eq!(tokens, vec![Num(1), Plus, Num(2), RightParen]);
    assert_eq!(Parser::new(tokens).parse(), None);
}

#[test]
fn calculator_division_truncates_towards_zero() {
    assert_eq!(parse_expr("7/2").eval(), Some(3));
    assert_eq!(parse_expr("-7/2").eval(), Some(-3));
    assert_eq!(parse_expr("7/(0-2)").eval(), Some(-3));
}

#[test]
fn calculator_division_by_zero_has_no_value() {
    assert_eq!(parse_expr("1/0").eval(), None);
    assert_eq!(parse_expr("1/(2-2)").eval(), None);
}

#[test]
fn calculator_overflow_has_no_value() {
    assert_eq!(parse_expr("2147483647+1").eval(), None);
    assert_eq!(parse_expr("2147483647").eval(), Some(2147483647));
    assert_eq!(parse_expr("65536*65536").eval(), None);
}

#[test]
fn calculator_unary_minus_binds_tighter_than_binary() {
    assert_eq!(parse_expr("-2*3").eval(), Some(-6));
    assert_eq!(
        parse_expr("-2*3"),
        Expression::Binary {
            lhs: Box::new(Expression::Unary { op: Minus, expr: num(2) }),
            op: Mul,
            rhs: num(3),
        }
    );
}

#[test]
fn calculator_precedence_table() {
    assert_eq!(Token::Plus.precedence(), Some(1));
    assert_eq!(Token::Minus.precedence(), Some(1));
    assert_eq!(Token::Mul.precedence(), Some(2));
    assert_eq!(Token::Div.precedence(), Some(2));
    assert_eq!(Token::Num(1).precedence(), None);
    assert_eq!(Token::LeftParen.precedence(), None);
    assert_eq!(Token::RightParen.precedence(), None);
}

#[test]
fn calculator_lexer_rejects_other_characters() {
    assert_eq!(Lexer::new("1 ? 2").lex(), Err(LexicalError::InvalidToken("?".to_string())));
    assert_eq!(
        Lexer::new("99999999999").lex(),
        Err(LexicalError::InvalidToken("99999999999".to_string()))
    );
    assert_eq!(Lexer::new("   ").lex(), Ok(vec![]));
    assert_eq!(Lexer::new("").next_token(), Err(LexicalError::Eof));
}

#[test]
fn calculator_empty_input_is_no_expression() {
    assert_eq!(Parser::new(vec![]).parse(), None);
    assert_eq!(Parser::new(vec![Plus]).parse(), None);
    assert_eq!(Parser::new(vec![Num(1), Num(2)]).parse(), None);
}
