use parser::ast::prec;
use parser::ast::Assoc;
use parser::ast::BinaryOp;
use parser::ast::Expression;
use parser::ast::For;
use parser::ast::If;
use parser::ast::OpInfo;
use parser::ast::Program;
use parser::ast::Statement;
use parser::ast::UnaryOp;
use parser::ast::While;
use parser::lexer::Lexer;
use parser::parser::Parser;
use parser::parser::SyntaxError;
use parser::token::Span;
use parser::token::Spanned;
use parser::token::Token;
use parser::token::TokenKind;

fn tree(source: &str) -> Result<Program, SyntaxError> {
    let tokens = Lexer::new(source).lex().unwrap();
    Parser::new(tokens).parse()
}

fn t(kind: TokenKind, start: usize, end: usize) -> Token {
    Token { kind, span: Span { start, end } }
}

fn num(n: i32) -> Expression {
    Expression::Value(n)
}

fn var(name: &str) -> Expression {
    Expression::Var(name.to_string())
}

fn bin(lhs: Expression, op: BinaryOp, rhs: Expression) -> Expression {
    Expression::Binary { lhs: Box::new(lhs), op, rhs: Box::new(rhs) }
}

fn neg(e: Expression) -> Expression {
    Expression::Unary { op: UnaryOp::Minus, operand: Box::new(e) }
}

fn stmt(e: Expression) -> Statement {
    Statement::ExpressionStatement(e)
}

fn one(e: Expression) -> Result<Program, SyntaxError> {
    Ok(Program { body: vec![stmt(e)] })
}

#[test]
fn minus_groups_to_the_left() {
    assert_eq!(
        tree("1-2-3;"),
        one(bin(bin(num(1), BinaryOp::Minus, num(2)), BinaryOp::Minus, num(3)))
    );
}

#[test]
fn pow_groups_to_the_right() {
    assert_eq!(
        tree("2^3^2;"),
        one(bin(num(2), BinaryOp::Pow, bin(num(3), BinaryOp::Pow, num(2))))
    );
}

#[test]
fn assign_groups_to_the_right() {
    assert_eq!(
        tree("a=b=1;"),
        one(bin(var("a"), BinaryOp::Assign, bin(var("b"), BinaryOp::Assign, num(1))))
    );
}

#[test]
fn precedence_levels_nest_as_the_table_says() {
    assert_eq!(
        tree("x = 1 < 2 + 3 * 4 ^ 5;"),
        one(bin(
            var("x"),
            BinaryOp::Assign,
            bin(
                num(1),
                BinaryOp::Lt,
                bin(
                    num(2),
                    BinaryOp::Plus,
                    bin(num(3), BinaryOp::Mul, bin(num(4), BinaryOp::Pow, num(5)))
                )
            )
        ))
    );
    assert_eq!(
        tree("1*2+3;"),
        one(bin(bin(num(1), BinaryOp::Mul, num(2)), BinaryOp::Plus, num(3)))
    );
    assert_eq!(
        tree("8/4/2;"),
        one(bin(bin(num(8), BinaryOp::Div, num(4)), BinaryOp::Div, num(2)))
    );
    assert_eq!(
        tree("1==2!=3;"),
        one(bin(bin(num(1), BinaryOp::Eq, num(2)), BinaryOp::Neq, num(3)))
    );
}

#[test]
fn unary_minus_binds_between_mul_and_pow() {
    assert_eq!(tree("-2^2;"), one(neg(bin(num(2), BinaryOp::Pow, num(2)))));
    assert_eq!(tree("-2*3;"), one(bin(neg(num(2)), BinaryOp::Mul, num(3))));
    assert_eq!(tree("--1;"), one(neg(neg(num(1)))));
    assert_eq!(tree("1--1;"), one(bin(num(1), BinaryOp::Minus, neg(num(1)))));
}

#[test]
fn parentheses_reset_the_precedence() {
    assert_eq!(
        tree("(1+2)*3;"),
        one(bin(bin(num(1), BinaryOp::Plus, num(2)), BinaryOp::Mul, num(3)))
    );
    assert_eq!(tree("((x));"), one(var("x")));
    assert_eq!(
        tree("2^(x=3);"),
        one(bin(num(2), BinaryOp::Pow, bin(var("x"), BinaryOp::Assign, num(3))))
    );
}

#[test]
fn statements_of_every_kind() {
    assert_eq!(
        tree("if (x) { y; } while (1) {} { } z;"),
        Ok(Program {
            body: vec![
                Statement::If(If { cond: var("x"), then: vec![stmt(var("y"))] }),
                Statement::While(While { cond: num(1), body: vec![] }),
                Statement::BlockStatement(vec![]),
                stmt(var("z")),
            ]
        })
    );
    assert_eq!(
        tree("for (i=0; i<3; i=i+1) { { i; } }"),
        Ok(Program {
            body: vec![Statement::For(For {
                init: Some(bin(var("i"), BinaryOp::Assign, num(0))),
                cond: Some(bin(var("i"), BinaryOp::Lt, num(3))),
                update: Some(bin(
                    var("i"),
                    BinaryOp::Assign,
                    bin(var("i"), BinaryOp::Plus, num(1))
                )),
                body: vec![Statement::BlockStatement(vec![stmt(var("i"))])],
            })]
        })
    );
}

#[test]
fn for_clauses_may_be_left_out() {
    assert_eq!(
        tree("for (;;) {}"),
        Ok(Program {
            body: vec![Statement::For(For { init: None, cond: None, update: None, body: vec![] })]
        })
    );
    assert_eq!(
        tree("for (;x;) {}"),
        Ok(Program {
            body: vec![Statement::For(For {
                init: None,
                cond: Some(var("x")),
                update: None,
                body: vec![]
            })]
        })
    );
    assert_eq!(
        tree("for (;;x) {}"),
        Ok(Program {
            body: vec![Statement::For(For {
                init: None,
                cond: None,
                update: Some(var("x")),
                body: vec![]
            })]
        })
    );
}

#[test]
fn assignment_needs_a_variable_on_its_left() {
    assert_eq!(
        tree("1=2;"),
        Err(SyntaxError::InvalidAssignmentTarget(t(TokenKind::Assign, 1, 2)))
    );
    assert_eq!(
        tree("(x)=2;"),
        Ok(Program { body: vec![stmt(bin(var("x"), BinaryOp::Assign, num(2)))] })
    );
    assert_eq!(
        tree("x+1=2;"),
        Err(SyntaxError::InvalidAssignmentTarget(t(TokenKind::Assign, 3, 4)))
    );
    assert_eq!(
        tree("-x=2;"),
        Err(SyntaxError::InvalidAssignmentTarget(t(TokenKind::Assign, 2, 3)))
    );
    assert_eq!(
        tree("1+x=2;"),
        Err(SyntaxError::InvalidAssignmentTarget(t(TokenKind::Assign, 3, 4)))
    );
    assert_eq!(
        tree("1+(x=2);"),
        Ok(Program {
            body: vec![stmt(bin(num(1), BinaryOp::Plus, bin(var("x"), BinaryOp::Assign, num(2))))]
        })
    );
    assert_eq!(
        tree("y = 1 = 2;"),
        Err(SyntaxError::InvalidAssignmentTarget(t(TokenKind::Assign, 6, 7)))
    );
}

#[test]
fn parentheses_must_balance() {
    assert_eq!(tree("(1+2"), Err(SyntaxError::UnmatchedLeftParen(t(TokenKind::LeftParen, 0, 1))));
    assert_eq!(
        tree("(1+2;"),
        Err(SyntaxError::UnmatchedLeftParen(t(TokenKind::LeftParen, 0, 1)))
    );
    assert_eq!(
        tree("1+(2*(3+4);"),
        Err(SyntaxError::UnmatchedLeftParen(t(TokenKind::LeftParen, 2, 3)))
    );
    assert_eq!(tree("1+2)"), Err(SyntaxError::UnexpectedToken(t(TokenKind::RightParen, 3, 4))));
    assert_eq!(tree("1+2);"), Err(SyntaxError::UnexpectedToken(t(TokenKind::RightParen, 3, 4))));
}

#[test]
fn every_syntax_error() {
    assert_eq!(tree(""), Err(SyntaxError::UnexpectedEof));
    assert_eq!(tree("1"), Err(SyntaxError::UnexpectedEof));
    assert_eq!(tree("1+"), Err(SyntaxError::UnexpectedEof));
    assert_eq!(tree("if (1) {"), Err(SyntaxError::UnexpectedEof));
    assert_eq!(tree("if"), Err(SyntaxError::UnexpectedEof));
    assert_eq!(tree("1 2;"), Err(SyntaxError::UnexpectedToken(t(TokenKind::Num(2), 2, 3))));
    assert_eq!(tree(";"), Err(SyntaxError::UnexpectedToken(t(TokenKind::Semicolon, 0, 1))));
    assert_eq!(tree("*1;"), Err(SyntaxError::UnexpectedToken(t(TokenKind::Mul, 0, 1))));
    assert_eq!(tree("if 1 {}"), Err(SyntaxError::UnexpectedToken(t(TokenKind::Num(1), 3, 4))));
    assert_eq!(
        tree("if (1) 2;"),
        Err(SyntaxError::UnexpectedToken(t(TokenKind::Num(2), 7, 8)))
    );
    assert_eq!(
        tree("while (1;) {}"),
        Err(SyntaxError::UnexpectedToken(t(TokenKind::Semicolon, 8, 9)))
    );
    assert_eq!(
        tree("for (;) {}"),
        Err(SyntaxError::UnexpectedToken(t(TokenKind::RightParen, 6, 7)))
    );
    assert_eq!(tree("}"), Err(SyntaxError::UnexpectedToken(t(TokenKind::RightBlock, 0, 1))));
    assert_eq!(tree("1; }"), Err(SyntaxError::UnexpectedToken(t(TokenKind::RightBlock, 3, 4))));
}

#[test]
fn syntax_errors_point_at_their_token() {
    let at = Some(Span { start: 3, end: 4 });
    assert_eq!(SyntaxError::UnexpectedToken(t(TokenKind::Plus, 3, 4)).span(), at);
    assert_eq!(SyntaxError::UnmatchedLeftParen(t(TokenKind::LeftParen, 3, 4)).span(), at);
    assert_eq!(SyntaxError::InvalidAssignmentTarget(t(TokenKind::Assign, 3, 4)).span(), at);
    assert_eq!(SyntaxError::UnexpectedEof.span(), None);
}

#[test]
fn a_parser_parses_once() {
    let tokens = Lexer::new("1;").lex().unwrap();
    let mut parser = Parser::new(tokens);
    assert_eq!(parser.parse(), one(num(1)));
    assert_eq!(parser.parse(), Err(SyntaxError::UnexpectedEof));
}

#[test]
fn operator_table() {
    let left = |prec: u8| OpInfo { prec, assoc: Assoc::Left };
    let right = |prec: u8| OpInfo { prec, assoc: Assoc::Right };
    assert_eq!(BinaryOp::Assign.op_info(), right(1));
    assert_eq!(BinaryOp::Eq.op_info(), left(2));
    assert_eq!(BinaryOp::Neq.op_info(), left(2));
    assert_eq!(BinaryOp::Gt.op_info(), left(2));
    assert_eq!(BinaryOp::GtEq.op_info(), left(2));
    assert_eq!(BinaryOp::Lt.op_info(), left(2));
    assert_eq!(BinaryOp::LtEq.op_info(), left(2));
    assert_eq!(BinaryOp::Plus.op_info(), left(3));
    assert_eq!(BinaryOp::Minus.op_info(), left(3));
    assert_eq!(BinaryOp::Mul.op_info(), left(4));
    assert_eq!(BinaryOp::Div.op_info(), left(4));
    assert_eq!(BinaryOp::Pow.op_info(), right(6));
    assert_eq!(
        [prec::LOWEST, prec::ASSIGN, prec::COMPARE, prec::PLUS, prec::MUL, prec::UNARY, prec::POW],
        [0, 1, 2, 3, 4, 5, 6]
    );
}

#[test]
fn binds_at_compares_with_the_minimum() {
    let info = OpInfo { prec: 3, assoc: Assoc::Left };
    assert!(info.binds_at(0));
    assert!(info.binds_at(3));
    assert!(!info.binds_at(4));
}

#[test]
fn operators_from_token_kinds() {
    assert_eq!(BinaryOp::from_kind(&TokenKind::Plus), Some(BinaryOp::Plus));
    assert_eq!(BinaryOp::from_kind(&TokenKind::Minus), Some(BinaryOp::Minus));
    assert_eq!(BinaryOp::from_kind(&TokenKind::Mul), Some(BinaryOp::Mul));
    assert_eq!(BinaryOp::from_kind(&TokenKind::Div), Some(BinaryOp::Div));
    assert_eq!(BinaryOp::from_kind(&TokenKind::Pow), Some(BinaryOp::Pow));
    assert_eq!(BinaryOp::from_kind(&TokenKind::Eq), Some(BinaryOp::Eq));
    assert_eq!(BinaryOp::from_kind(&TokenKind::Neq), Some(BinaryOp::Neq));
    assert_eq!(BinaryOp::from_kind(&TokenKind::Gt), Some(BinaryOp::Gt));
    assert_eq!(BinaryOp::from_kind(&TokenKind::GtEq), Some(BinaryOp::GtEq));
    assert_eq!(BinaryOp::from_kind(&TokenKind::Lt), Some(BinaryOp::Lt));
    assert_eq!(BinaryOp::from_kind(&TokenKind::LtEq), Some(BinaryOp::LtEq));
    assert_eq!(BinaryOp::from_kind(&TokenKind::Assign), Some(BinaryOp::Assign));
    assert_eq!(BinaryOp::from_kind(&TokenKind::Num(1)), None);
    assert_eq!(BinaryOp::from_kind(&TokenKind::LeftParen), None);
    assert_eq!(BinaryOp::from_kind(&TokenKind::Semicolon), None);
    assert_eq!(BinaryOp::from_kind(&TokenKind::If), None);
}

#[test]
fn parsed_programs_assign_to_variables_only() {
    let program = tree("x = 1; for (i=0; i<2; i=i+1) { if (i) { y = x = i; } } { z = -(w = 2); }");
    assert!(program.unwrap().has_valid_targets());
    let bad = bin(num(1), BinaryOp::Assign, num(2));
    assert!(!bad.has_valid_targets());
    assert!(bin(var("x"), BinaryOp::Assign, num(2)).has_valid_targets());
    assert!(!neg(bin(num(1), BinaryOp::Assign, num(2))).has_valid_targets());
    assert!(!bin(var("x"), BinaryOp::Plus, bin(neg(var("y")), BinaryOp::Assign, num(2)))
        .has_valid_targets());
    let wrap = |e: Expression| Program {
        body: vec![Statement::While(While {
            cond: num(1),
            body: vec![Statement::BlockStatement(vec![Statement::If(If {
                cond: num(1),
                then: vec![Statement::For(For {
                    init: None,
                    cond: None,
                    update: Some(e),
                    body: vec![],
                })],
            })])],
        })],
    };
    assert!(wrap(bin(var("x"), BinaryOp::Assign, num(2))).has_valid_targets());
    assert!(!wrap(bin(num(1), BinaryOp::Assign, num(2))).has_valid_targets());
}
