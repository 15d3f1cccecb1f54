//! The parser: precedence climbing for expressions, recursive descent for
//! statements.

use crate::ast::binary_op_of;
use crate::ast::block_targets_ok;
use crate::ast::option_targets_ok;
use crate::ast::stmt_targets_ok;
use crate::ast::targets_ok;
use crate::ast::option_view;
use crate::ast::prec;
use crate::ast::stmt_views;
use crate::ast::BinaryOp;
use crate::ast::Expr;
use crate::ast::Expression;
use crate::ast::For;
use crate::ast::If;
use crate::ast::Program;
use crate::ast::Statement;
use crate::ast::Stmt;
use crate::ast::UnaryOp;
use crate::ast::While;
use crate::token::token_views;
use crate::token::KindView;
use crate::token::Span;
use crate::token::Spanned;
use crate::token::Token;
use crate::token::TokenKind;
use crate::token::TokenView;
use vstd::prelude::*;

verus! {

/// Why tokens are no program.
#[derive(Debug, PartialEq)]
pub enum SyntaxError {
    /// A `(` whose expression is not followed by `)`.
    UnmatchedLeftParen(Token),
    /// A token that cannot stand where it stands.
    UnexpectedToken(Token),
    /// A `=` whose left side is no variable.
    InvalidAssignmentTarget(Token),
    /// The input ends where more is needed.
    UnexpectedEof,
}

/// Mathematical value of a [`SyntaxError`].
pub enum SyntaxErrorView {
    UnmatchedLeftParen(TokenView),
    UnexpectedToken(TokenView),
    InvalidAssignmentTarget(TokenView),
    UnexpectedEof,
}

impl View for SyntaxError {
    type V = SyntaxErrorView;

    open spec fn view(&self) -> SyntaxErrorView {
        match self {
            SyntaxError::UnmatchedLeftParen(t) => SyntaxErrorView::UnmatchedLeftParen(t@),
            SyntaxError::UnexpectedToken(t) => SyntaxErrorView::UnexpectedToken(t@),
            SyntaxError::InvalidAssignmentTarget(t) => SyntaxErrorView::InvalidAssignmentTarget(
                t@,
            ),
            SyntaxError::UnexpectedEof => SyntaxErrorView::UnexpectedEof,
        }
    }
}

impl Spanned for SyntaxError {
    open spec fn span_spec(&self) -> Option<Span> {
        match self {
            SyntaxError::UnmatchedLeftParen(t) => Some(t.span),
            SyntaxError::UnexpectedToken(t) => Some(t.span),
            SyntaxError::InvalidAssignmentTarget(t) => Some(t.span),
            SyntaxError::UnexpectedEof => None,
        }
    }

    fn span(&self) -> (s: Option<Span>) {
        match self {
            SyntaxError::UnmatchedLeftParen(t) => Some(t.span),
            SyntaxError::UnexpectedToken(t) => Some(t.span),
            SyntaxError::InvalidAssignmentTarget(t) => Some(t.span),
            SyntaxError::UnexpectedEof => None,
        }
    }
}

/// A result of the parser.
pub type ParseResult<T> = Result<T, SyntaxError>;

/// What a grammar rule yields: the value and the index of the token after
/// it, or the first error.
pub type Parsed<T> = Result<(T, int), SyntaxErrorView>;

/// Demands a token of the given kind at `pos` and steps over it.
pub open spec fn expect_at(ts: Seq<TokenView>, pos: int, kind: KindView) -> Result<
    int,
    SyntaxErrorView,
> {
    if !(0 <= pos < ts.len()) {
        Err(SyntaxErrorView::UnexpectedEof)
    } else if ts[pos].kind == kind {
        Ok(pos + 1)
    } else {
        Err(SyntaxErrorView::UnexpectedToken(ts[pos]))
    }
}

/// `Expr(min_prec) -> Primary { BinOp Expr(q) }`
///
/// In this and the other rules a test that the next rule starts further on
/// serves to show that the definition comes to an end: every rule that
/// succeeds consumes a token, see [`lemma_expr_advances`].
pub open spec fn parse_expr(ts: Seq<TokenView>, pos: int, min_prec: int) -> Parsed<Expr>
    decreases ts.len() - pos, 2int,
{
    match parse_primary(ts, pos) {
        Ok((lhs, next)) => {
            if 0 <= pos < next <= ts.len() {
                parse_operators(ts, next, min_prec, lhs)
            } else {
                Err(SyntaxErrorView::UnexpectedEof)
            }
        },
        Err(e) => Err(e),
    }
}

/// `Primary -> "-" Expr(UNARY) | "(" Expr(LOWEST) ")" | Ident | IntLiteral`
pub open spec fn parse_primary(ts: Seq<TokenView>, pos: int) -> Parsed<Expr>
    decreases ts.len() - pos, 1int,
{
    if !(0 <= pos < ts.len()) {
        Err(SyntaxErrorView::UnexpectedEof)
    } else {
        match ts[pos].kind {
            KindView::Num(n) => Ok((Expr::Value(n), pos + 1)),
            KindView::Ident(name) => Ok((Expr::Var(name), pos + 1)),
            KindView::Minus => match parse_expr(ts, pos + 1, prec::UNARY as int) {
                Ok((operand, next)) => Ok(
                    (Expr::Unary { op: UnaryOp::Minus, operand: Box::new(operand) }, next),
                ),
                Err(e) => Err(e),
            },
            KindView::LeftParen => match parse_expr(ts, pos + 1, prec::LOWEST as int) {
                Ok((inner, next)) => match expect_at(ts, next, KindView::RightParen) {
                    Ok(after) => Ok((inner, after)),
                    Err(_) => Err(SyntaxErrorView::UnmatchedLeftParen(ts[pos])),
                },
                Err(e) => Err(e),
            },
            _ => Err(SyntaxErrorView::UnexpectedToken(ts[pos])),
        }
    }
}

/// The climbing loop: while the next token is a binary operator that binds
/// at `min_prec`, it is consumed, its right operand is parsed, and the two
/// sides are folded into `lhs`.
pub open spec fn parse_operators(ts: Seq<TokenView>, pos: int, min_prec: int, lhs: Expr) -> Parsed<
    Expr,
>
    decreases ts.len() - pos, 0int,
{
    if !(0 <= pos < ts.len()) {
        Ok((lhs, pos))
    } else {
        match binary_op_of(ts[pos].kind) {
            Some(op) => {
                let info = op.spec_op_info();
                if info.prec < min_prec {
                    Ok((lhs, pos))
                } else if op == BinaryOp::Assign && !(lhs is Var) {
                    Err(SyntaxErrorView::InvalidAssignmentTarget(ts[pos]))
                } else {
                    match parse_expr(ts, pos + 1, info.spec_rhs_prec()) {
                        Ok((rhs, next)) => {
                            if 0 <= pos < next <= ts.len() {
                                parse_operators(
                                    ts,
                                    next,
                                    min_prec,
                                    Expr::Binary { lhs: Box::new(lhs), op, rhs: Box::new(rhs) },
                                )
                            } else {
                                Err(SyntaxErrorView::UnexpectedEof)
                            }
                        },
                        Err(e) => Err(e),
                    }
                }
            },
            None => Ok((lhs, pos)),
        }
    }
}

/// Every expression rule that succeeds consumes at least one token and
/// stays within the input.
pub proof fn lemma_expr_advances(ts: Seq<TokenView>, pos: int, min_prec: int)
    ensures
        parse_expr(ts, pos, min_prec) matches Ok((_, next)) ==> 0 <= pos < next <= ts.len(),
        parse_primary(ts, pos) matches Ok((_, next)) ==> 0 <= pos < next <= ts.len(),
    decreases ts.len() - pos, 2int,
{
    if 0 <= pos < ts.len() {
        match ts[pos].kind {
            KindView::Minus => {
                lemma_expr_advances(ts, pos + 1, prec::UNARY as int);
            },
            KindView::LeftParen => {
                lemma_expr_advances(ts, pos + 1, prec::LOWEST as int);
            },
            _ => {},
        }
        match parse_primary(ts, pos) {
            Ok((lhs, next)) => {
                lemma_operators_advance(ts, next, min_prec, lhs);
            },
            Err(_) => {},
        }
    }
}

/// The climbing loop never moves backwards and stays within the input.
pub proof fn lemma_operators_advance(ts: Seq<TokenView>, pos: int, min_prec: int, lhs: Expr)
    requires
        0 <= pos <= ts.len(),
    ensures
        parse_operators(ts, pos, min_prec, lhs) matches Ok((_, next)) ==> pos <= next <= ts.len(),
    decreases ts.len() - pos, 1int,
{
    if pos < ts.len() {
        match binary_op_of(ts[pos].kind) {
            Some(op) => {
                let info = op.spec_op_info();
                if info.prec >= min_prec && !(op == BinaryOp::Assign && !(lhs is Var)) {
                    lemma_expr_advances(ts, pos + 1, info.spec_rhs_prec());
                    match parse_expr(ts, pos + 1, info.spec_rhs_prec()) {
                        Ok((rhs, next)) => {
                            lemma_operators_advance(
                                ts,
                                next,
                                min_prec,
                                Expr::Binary { lhs: Box::new(lhs), op, rhs: Box::new(rhs) },
                            );
                        },
                        Err(_) => {},
                    }
                }
            },
            None => {},
        }
    }
}

/// The head of a statement with a condition: the keyword, `(`, an
/// expression, `)`.
pub open spec fn parse_condition(ts: Seq<TokenView>, pos: int) -> Parsed<Expr> {
    match expect_at(ts, pos + 1, KindView::LeftParen) {
        Ok(open) => match parse_expr(ts, open, prec::LOWEST as int) {
            Ok((cond, next)) => match expect_at(ts, next, KindView::RightParen) {
                Ok(after) => Ok((cond, after)),
                Err(e) => Err(e),
            },
            Err(e) => Err(e),
        },
        Err(e) => Err(e),
    }
}

/// One clause in the head of a `for`: an expression, or nothing where the
/// token there is `closer` or the input has ended.
pub open spec fn parse_clause(ts: Seq<TokenView>, pos: int, closer: KindView) -> Parsed<
    Option<Expr>,
> {
    if 0 <= pos < ts.len() && ts[pos].kind != closer {
        match parse_expr(ts, pos, prec::LOWEST as int) {
            Ok((e, next)) => Ok((Some(e), next)),
            Err(e) => Err(e),
        }
    } else {
        Ok((None, pos))
    }
}

/// The head of a `for`: the keyword, `(`, and three optional clauses, the
/// first two closed by `;` and the third by `)`.
pub open spec fn parse_for_head(ts: Seq<TokenView>, pos: int) -> Parsed<
    (Option<Expr>, Option<Expr>, Option<Expr>),
> {
    match expect_at(ts, pos + 1, KindView::LeftParen) {
        Ok(first) => match parse_clause(ts, first, KindView::Semicolon) {
            Ok((init, after_init)) => match expect_at(ts, after_init, KindView::Semicolon) {
                Ok(second) => match parse_clause(ts, second, KindView::Semicolon) {
                    Ok((cond, after_cond)) => match expect_at(ts, after_cond, KindView::Semicolon) {
                        Ok(third) => match parse_clause(ts, third, KindView::RightParen) {
                            Ok((update, after_update)) => match expect_at(ts, after_update, KindView::RightParen) {
                                Ok(end) => Ok(((init, cond, update), end)),
                                Err(e) => Err(e),
                            },
                            Err(e) => Err(e),
                        },
                        Err(e) => Err(e),
                    },
                    Err(e) => Err(e),
                },
                Err(e) => Err(e),
            },
            Err(e) => Err(e),
        },
        Err(e) => Err(e),
    }
}

/// `Stmt -> If | While | For | Block | Expr ";"`
pub open spec fn parse_stmt(ts: Seq<TokenView>, pos: int) -> Parsed<Stmt>
    decreases ts.len() - pos, 2int,
{
    if !(0 <= pos < ts.len()) {
        Err(SyntaxErrorView::UnexpectedEof)
    } else {
        match ts[pos].kind {
            KindView::If => match parse_condition(ts, pos) {
                Ok((cond, next)) => {
                    if 0 <= pos < next <= ts.len() {
                        match parse_block(ts, next) {
                            Ok((then, after)) => Ok((Stmt::If { cond, then }, after)),
                            Err(e) => Err(e),
                        }
                    } else {
                        Err(SyntaxErrorView::UnexpectedEof)
                    }
                },
                Err(e) => Err(e),
            },
            KindView::While => match parse_condition(ts, pos) {
                Ok((cond, next)) => {
                    if 0 <= pos < next <= ts.len() {
                        match parse_block(ts, next) {
                            Ok((body, after)) => Ok((Stmt::While { cond, body }, after)),
                            Err(e) => Err(e),
                        }
                    } else {
                        Err(SyntaxErrorView::UnexpectedEof)
                    }
                },
                Err(e) => Err(e),
            },
            KindView::For => match parse_for_head(ts, pos) {
                Ok(((init, cond, update), next)) => {
                    if 0 <= pos < next <= ts.len() {
                        match parse_block(ts, next) {
                            Ok((body, after)) => Ok(
                                (Stmt::For { init, cond, update, body }, after),
                            ),
                            Err(e) => Err(e),
                        }
                    } else {
                        Err(SyntaxErrorView::UnexpectedEof)
                    }
                },
                Err(e) => Err(e),
            },
            KindView::LeftBlock => match parse_block(ts, pos) {
                Ok((body, after)) => Ok((Stmt::Block(body), after)),
                Err(e) => Err(e),
            },
            _ => match parse_expr(ts, pos, prec::LOWEST as int) {
                Ok((e, next)) => match expect_at(ts, next, KindView::Semicolon) {
                    Ok(after) => Ok((Stmt::Expression(e), after)),
                    Err(e) => Err(e),
                },
                Err(e) => Err(e),
            },
        }
    }
}

/// `Block -> "{" { Stmt } "}"`
pub open spec fn parse_block(ts: Seq<TokenView>, pos: int) -> Parsed<Seq<Stmt>>
    decreases ts.len() - pos, 1int,
{
    match expect_at(ts, pos, KindView::LeftBlock) {
        Ok(inside) => parse_block_rest(ts, inside),
        Err(e) => Err(e),
    }
}

/// The statements of a block up to its `}`, and the `}` itself.
pub open spec fn parse_block_rest(ts: Seq<TokenView>, pos: int) -> Parsed<Seq<Stmt>>
    decreases ts.len() - pos, 3int,
{
    if 0 <= pos < ts.len() && ts[pos].kind != KindView::RightBlock {
        match parse_stmt(ts, pos) {
            Ok((first, next)) => {
                if 0 <= pos < next <= ts.len() {
                    match parse_block_rest(ts, next) {
                        Ok((rest, after)) => Ok((seq![first] + rest, after)),
                        Err(e) => Err(e),
                    }
                } else {
                    Err(SyntaxErrorView::UnexpectedEof)
                }
            },
            Err(e) => Err(e),
        }
    } else {
        match expect_at(ts, pos, KindView::RightBlock) {
            Ok(after) => Ok((Seq::empty(), after)),
            Err(e) => Err(e),
        }
    }
}

/// The statements from `pos` to the end of input.
pub open spec fn parse_stmts(ts: Seq<TokenView>, pos: int) -> Result<Seq<Stmt>, SyntaxErrorView>
    decreases ts.len() - pos,
{
    if !(0 <= pos < ts.len()) {
        Ok(Seq::empty())
    } else {
        match parse_stmt(ts, pos) {
            Ok((first, next)) => {
                if 0 <= pos < next <= ts.len() {
                    match parse_stmts(ts, next) {
                        Ok(rest) => Ok(seq![first] + rest),
                        Err(e) => Err(e),
                    }
                } else {
                    Err(SyntaxErrorView::UnexpectedEof)
                }
            },
            Err(e) => Err(e),
        }
    }
}

/// `Program -> Stmt { Stmt }`: one statement at least, then statements to
/// the end of input.
pub open spec fn parse_program(ts: Seq<TokenView>, pos: int) -> Result<Seq<Stmt>, SyntaxErrorView> {
    if !(0 <= pos < ts.len()) {
        Err(SyntaxErrorView::UnexpectedEof)
    } else {
        parse_stmts(ts, pos)
    }
}


/// An expression that parses holds no assignment to anything but a variable.
pub proof fn lemma_expr_targets(ts: Seq<TokenView>, pos: int, min_prec: int)
    ensures
        parse_expr(ts, pos, min_prec) matches Ok((e, _)) ==> targets_ok(e),
        parse_primary(ts, pos) matches Ok((e, _)) ==> targets_ok(e),
    decreases ts.len() - pos, 2int,
{
    if 0 <= pos < ts.len() {
        match ts[pos].kind {
            KindView::Minus => {
                lemma_expr_targets(ts, pos + 1, prec::UNARY as int);
            },
            KindView::LeftParen => {
                lemma_expr_targets(ts, pos + 1, prec::LOWEST as int);
            },
            _ => {},
        }
        match parse_primary(ts, pos) {
            Ok((lhs, next)) => {
                if 0 <= pos < next <= ts.len() {
                    lemma_operators_targets(ts, next, min_prec, lhs);
                }
            },
            Err(_) => {},
        }
    }
}

/// The climbing loop adds no assignment to anything but a variable.
pub proof fn lemma_operators_targets(ts: Seq<TokenView>, pos: int, min_prec: int, lhs: Expr)
    requires
        targets_ok(lhs),
    ensures
        parse_operators(ts, pos, min_prec, lhs) matches Ok((e, _)) ==> targets_ok(e),
    decreases ts.len() - pos, 1int,
{
    if 0 <= pos < ts.len() {
        match binary_op_of(ts[pos].kind) {
            Some(op) => {
                let info = op.spec_op_info();
                if info.prec >= min_prec && !(op == BinaryOp::Assign && !(lhs is Var)) {
                    lemma_expr_targets(ts, pos + 1, info.spec_rhs_prec());
                    match parse_expr(ts, pos + 1, info.spec_rhs_prec()) {
                        Ok((rhs, next)) => {
                            if 0 <= pos < next <= ts.len() {
                                lemma_operators_targets(
                                    ts,
                                    next,
                                    min_prec,
                                    Expr::Binary { lhs: Box::new(lhs), op, rhs: Box::new(rhs) },
                                );
                            }
                        },
                        Err(_) => {},
                    }
                }
            },
            None => {},
        }
    }
}

proof fn lemma_clause_targets(ts: Seq<TokenView>, pos: int, closer: KindView)
    ensures
        parse_clause(ts, pos, closer) matches Ok((e, _)) ==> option_targets_ok(e),
{
    lemma_expr_targets(ts, pos, prec::LOWEST as int);
}

proof fn lemma_for_head_targets(ts: Seq<TokenView>, pos: int)
    ensures
        parse_for_head(ts, pos) matches Ok(((init, cond, update), _)) ==> option_targets_ok(init)
            && option_targets_ok(cond) && option_targets_ok(update),
{
    match expect_at(ts, pos + 1, KindView::LeftParen) {
        Ok(first) => {
            lemma_clause_targets(ts, first, KindView::Semicolon);
            match parse_clause(ts, first, KindView::Semicolon) {
                Ok((init, after_init)) => match expect_at(ts, after_init, KindView::Semicolon) {
                    Ok(second) => {
                        lemma_clause_targets(ts, second, KindView::Semicolon);
                        match parse_clause(ts, second, KindView::Semicolon) {
                            Ok((cond, after_cond)) => match expect_at(ts, after_cond, KindView::Semicolon) {
                                Ok(third) => {
                                    lemma_clause_targets(ts, third, KindView::RightParen);
                                },
                                Err(_) => {},
                            },
                            Err(_) => {},
                        }
                    },
                    Err(_) => {},
                },
                Err(_) => {},
            }
        },
        Err(_) => {},
    }
}

/// A statement that parses holds no assignment to anything but a variable.
pub proof fn lemma_stmt_targets(ts: Seq<TokenView>, pos: int)
    ensures
        parse_stmt(ts, pos) matches Ok((s, _)) ==> stmt_targets_ok(s),
    decreases ts.len() - pos, 2int,
{
    if 0 <= pos < ts.len() {
        match ts[pos].kind {
            KindView::If | KindView::While => {
                lemma_expr_targets(ts, pos + 2, prec::LOWEST as int);
                match parse_condition(ts, pos) {
                    Ok((_, next)) => {
                        if 0 <= pos < next <= ts.len() {
                            lemma_block_targets(ts, next);
                        }
                    },
                    Err(_) => {},
                }
            },
            KindView::For => {
                lemma_for_head_targets(ts, pos);
                match parse_for_head(ts, pos) {
                    Ok((_, next)) => {
                        if 0 <= pos < next <= ts.len() {
                            lemma_block_targets(ts, next);
                        }
                    },
                    Err(_) => {},
                }
            },
            KindView::LeftBlock => {
                lemma_block_targets(ts, pos);
            },
            _ => {
                lemma_expr_targets(ts, pos, prec::LOWEST as int);
            },
        }
    }
}

/// A block that parses holds no assignment to anything but a variable.
pub proof fn lemma_block_targets(ts: Seq<TokenView>, pos: int)
    ensures
        parse_block(ts, pos) matches Ok((body, _)) ==> block_targets_ok(body),
    decreases ts.len() - pos, 1int,
{
    match expect_at(ts, pos, KindView::LeftBlock) {
        Ok(inside) => {
            lemma_block_rest_targets(ts, inside);
        },
        Err(_) => {},
    }
}

proof fn lemma_block_rest_targets(ts: Seq<TokenView>, pos: int)
    ensures
        parse_block_rest(ts, pos) matches Ok((body, _)) ==> block_targets_ok(body),
    decreases ts.len() - pos, 3int,
{
    if 0 <= pos < ts.len() && ts[pos].kind != KindView::RightBlock {
        lemma_stmt_targets(ts, pos);
        match parse_stmt(ts, pos) {
            Ok((first, next)) => {
                if 0 <= pos < next <= ts.len() {
                    lemma_block_rest_targets(ts, next);
                    match parse_block_rest(ts, next) {
                        Ok((rest, _)) => {
                            lemma_targets_prepend(first, rest);
                        },
                        Err(_) => {},
                    }
                }
            },
            Err(_) => {},
        }
    }
}

proof fn lemma_targets_prepend(first: Stmt, rest: Seq<Stmt>)
    requires
        stmt_targets_ok(first),
        block_targets_ok(rest),
    ensures
        block_targets_ok(seq![first] + rest),
{
    let all = seq![first] + rest;
    assert forall|i: int| 0 <= i < all.len() implies stmt_targets_ok(#[trigger] all[i]) by {
        if i > 0 {
            assert(all[i] == rest[i - 1]);
        }
    }
}

/// The left side of every assignment in a program that parses is a variable.
pub proof fn lemma_program_targets(ts: Seq<TokenView>, pos: int)
    ensures
        parse_stmts(ts, pos) matches Ok(program) ==> block_targets_ok(program),
        parse_program(ts, pos) matches Ok(program) ==> block_targets_ok(program),
    decreases ts.len() - pos,
{
    if 0 <= pos < ts.len() {
        lemma_stmt_targets(ts, pos);
        match parse_stmt(ts, pos) {
            Ok((first, next)) => {
                if 0 <= pos < next <= ts.len() {
                    lemma_program_targets(ts, next);
                    match parse_stmts(ts, next) {
                        Ok(rest) => {
                            lemma_targets_prepend(first, rest);
                        },
                        Err(_) => {},
                    }
                }
            },
            Err(_) => {},
        }
    }
}

/// The value of an expression rule's outcome: the result, and the cursor after it.
pub open spec fn expr_outcome(r: ParseResult<Expression>, end: int) -> Parsed<Expr> {
    match r {
        Ok(e) => Ok((e@, end)),
        Err(e) => Err(e@),
    }
}

/// The value of a statement rule's outcome: the result, and the cursor after it.
pub open spec fn stmt_outcome(r: ParseResult<Statement>, end: int) -> Parsed<Stmt> {
    match r {
        Ok(s) => Ok((s@, end)),
        Err(e) => Err(e@),
    }
}

/// The value of a block's outcome: the result, and the cursor after it.
pub open spec fn block_outcome(r: ParseResult<Vec<Statement>>, end: int) -> Parsed<Seq<Stmt>> {
    match r {
        Ok(body) => Ok((stmt_views(body@), end)),
        Err(e) => Err(e@),
    }
}

/// The value of a [`Parser::parse`] result.
pub open spec fn program_outcome(r: ParseResult<Program>) -> Result<Seq<Stmt>, SyntaxErrorView> {
    match r {
        Ok(program) => Ok(program@),
        Err(e) => Err(e@),
    }
}

/// Puts statements in front of what the rest of a block gave.
pub open spec fn prepend_block(stmts: Seq<Stmt>, rest: Parsed<Seq<Stmt>>) -> Parsed<Seq<Stmt>> {
    match rest {
        Ok((more, end)) => Ok((stmts + more, end)),
        Err(e) => Err(e),
    }
}

/// Puts statements in front of what the rest of a program gave.
pub open spec fn prepend_stmts(stmts: Seq<Stmt>, rest: Result<Seq<Stmt>, SyntaxErrorView>) -> Result<
    Seq<Stmt>,
    SyntaxErrorView,
> {
    match rest {
        Ok(more) => Ok(stmts + more),
        Err(e) => Err(e),
    }
}

proof fn lemma_stmt_views_push(stmts: Seq<Statement>, s: Statement)
    ensures
        stmt_views(stmts.push(s)) == stmt_views(stmts) + seq![s@],
{
    assert(stmt_views(stmts.push(s)) =~= stmt_views(stmts) + seq![s@]);
}

/// A cursor over a buffer of tokens, with one token of lookahead.
pub struct Parser {
    tokens: Vec<Token>,
    pos: usize,
}

impl Parser {
    /// The tokens to parse.
    pub closed spec fn tokens(&self) -> Seq<TokenView> {
        token_views(self.tokens@)
    }

    /// Index of the next token to read.
    pub closed spec fn cursor(&self) -> int {
        self.pos as int
    }

    /// A cursor at the first of the tokens.
    pub fn new(src: Vec<Token>) -> (parser: Parser)
        ensures
            parser.tokens() == token_views(src@),
            parser.cursor() == 0,
    {
        Parser { tokens: src, pos: 0 }
    }

    /// Parses a whole program from the cursor. The first error ends the parse.
    pub fn parse(&mut self) -> (r: ParseResult<Program>)
        ensures
            final(self).tokens() == old(self).tokens(),
            old(self).cursor() <= final(self).cursor(),
            program_outcome(r) == parse_program(old(self).tokens(), old(self).cursor()),
            r is Ok ==> final(self).cursor() == old(self).tokens().len(),
            r matches Ok(program) ==> block_targets_ok(program@),
    {
        proof {
            lemma_program_targets(self.tokens(), self.cursor());
        }
        self.program()
    }

    fn program(&mut self) -> (r: ParseResult<Program>)
        ensures
            final(self).tokens() == old(self).tokens(),
            old(self).cursor() <= final(self).cursor(),
            program_outcome(r) == parse_program(old(self).tokens(), old(self).cursor()),
            r is Ok ==> final(self).cursor() == old(self).tokens().len(),
    {
        let ghost ts = self.tokens();
        let ghost first = self.cursor();
        let mut body: Vec<Statement> = Vec::new();
        if self.is_eof() {
            return Err(SyntaxError::UnexpectedEof);
        }
        assert(stmt_views(body@) + parse_stmts(ts, first)->Ok_0 == parse_stmts(ts, first)->Ok_0);
        while !self.is_eof()
            invariant
                self.tokens() == ts,
                ts == old(self).tokens(),
                first == old(self).cursor(),
                0 <= first < ts.len(),
                first <= self.cursor() <= ts.len(),
                parse_program(ts, first) == prepend_stmts(
                    stmt_views(body@),
                    parse_stmts(ts, self.cursor()),
                ),
            decreases ts.len() - self.cursor(),
        {
            let ghost at = self.cursor();
            let ghost before = stmt_views(body@);
            match self.stmt() {
                Ok(s) => {
                    proof {
                        lemma_stmt_views_push(body@, s);
                        match parse_stmts(ts, self.cursor()) {
                            Ok(more) => {
                                assert(before + (seq![s@] + more) == (before + seq![s@]) + more);
                            },
                            Err(_) => {},
                        }
                    }
                    body.push(s);
                },
                Err(e) => {
                    return Err(e);
                },
            }
        }
        proof {
            assert(stmt_views(body@) + Seq::<Stmt>::empty() == stmt_views(body@));
        }
        Ok(Program { body })
    }

    fn stmt(&mut self) -> (r: ParseResult<Statement>)
        ensures
            final(self).tokens() == old(self).tokens(),
            old(self).cursor() <= final(self).cursor(),
            stmt_outcome(r, final(self).cursor()) == parse_stmt(
                old(self).tokens(),
                old(self).cursor(),
            ),
            r is Ok ==> old(self).cursor() < final(self).cursor() <= old(self).tokens().len(),
        decreases old(self).tokens().len() - old(self).cursor(), 2int,
    {
        if self.pos >= self.tokens.len() {
            return Err(SyntaxError::UnexpectedEof);
        }
        match &self.tokens[self.pos].kind {
            TokenKind::If => self.if_statement(),
            TokenKind::While => self.while_statement(),
            TokenKind::For => self.for_statement(),
            TokenKind::LeftBlock => self.block_statement(),
            _ => {
                let e = match self.expr(prec::LOWEST) {
                    Ok(e) => e,
                    Err(e) => {
                        return Err(e);
                    },
                };
                match self.expect(TokenKind::Semicolon) {
                    Ok(()) => Ok(Statement::ExpressionStatement(e)),
                    Err(e) => Err(e),
                }
            },
        }
    }

    /// The head of a statement with a condition, from its keyword on.
    fn condition(&mut self) -> (r: ParseResult<Expression>)
        requires
            old(self).cursor() < old(self).tokens().len(),
        ensures
            final(self).tokens() == old(self).tokens(),
            old(self).cursor() <= final(self).cursor(),
            expr_outcome(r, final(self).cursor()) == parse_condition(
                old(self).tokens(),
                old(self).cursor(),
            ),
            r is Ok ==> old(self).cursor() < final(self).cursor() <= old(self).tokens().len(),
    {
        assert(self.tokens@.len() == self.tokens.len());
        self.pos = self.pos + 1;
        match self.expect(TokenKind::LeftParen) {
            Ok(()) => {},
            Err(e) => {
                return Err(e);
            },
        }
        let cond = match self.expr(prec::LOWEST) {
            Ok(e) => e,
            Err(e) => {
                return Err(e);
            },
        };
        match self.expect(TokenKind::RightParen) {
            Ok(()) => Ok(cond),
            Err(e) => Err(e),
        }
    }

    fn if_statement(&mut self) -> (r: ParseResult<Statement>)
        requires
            old(self).cursor() < old(self).tokens().len(),
            old(self).tokens()[old(self).cursor()].kind == KindView::If,
        ensures
            final(self).tokens() == old(self).tokens(),
            old(self).cursor() <= final(self).cursor(),
            stmt_outcome(r, final(self).cursor()) == parse_stmt(
                old(self).tokens(),
                old(self).cursor(),
            ),
            r is Ok ==> old(self).cursor() < final(self).cursor() <= old(self).tokens().len(),
        decreases old(self).tokens().len() - old(self).cursor(), 1int,
    {
        let cond = match self.condition() {
            Ok(e) => e,
            Err(e) => {
                return Err(e);
            },
        };
        match self.block() {
            Ok(then) => Ok(Statement::If(If { cond, then })),
            Err(e) => Err(e),
        }
    }

    fn while_statement(&mut self) -> (r: ParseResult<Statement>)
        requires
            old(self).cursor() < old(self).tokens().len(),
            old(self).tokens()[old(self).cursor()].kind == KindView::While,
        ensures
            final(self).tokens() == old(self).tokens(),
            old(self).cursor() <= final(self).cursor(),
            stmt_outcome(r, final(self).cursor()) == parse_stmt(
                old(self).tokens(),
                old(self).cursor(),
            ),
            r is Ok ==> old(self).cursor() < final(self).cursor() <= old(self).tokens().len(),
        decreases old(self).tokens().len() - old(self).cursor(), 1int,
    {
        let cond = match self.condition() {
            Ok(e) => e,
            Err(e) => {
                return Err(e);
            },
        };
        match self.block() {
            Ok(body) => Ok(Statement::While(While { cond, body })),
            Err(e) => Err(e),
        }
    }

    /// One clause in the head of a `for`.
    fn clause(&mut self, closer: TokenKind) -> (r: ParseResult<Option<Expression>>)
        ensures
            final(self).tokens() == old(self).tokens(),
            old(self).cursor() <= final(self).cursor(),
            match r {
                Ok(e) => parse_clause(old(self).tokens(), old(self).cursor(), closer@) == Ok::<
                    (Option<Expr>, int),
                    SyntaxErrorView,
                >((option_view(e), final(self).cursor())),
                Err(e) => parse_clause(old(self).tokens(), old(self).cursor(), closer@) == Err::<
                    (Option<Expr>, int),
                    SyntaxErrorView,
                >(e@),
            },
            r is Ok ==> old(self).cursor() <= final(self).cursor(),
            r is Ok ==> final(self).cursor() <= old(self).tokens().len() || final(self).cursor()
                == old(self).cursor(),
    {
        if self.pos < self.tokens.len() && !self.tokens[self.pos].kind.same(&closer) {
            match self.expr(prec::LOWEST) {
                Ok(e) => Ok(Some(e)),
                Err(e) => Err(e),
            }
        } else {
            Ok(None)
        }
    }

    fn for_statement(&mut self) -> (r: ParseResult<Statement>)
        requires
            old(self).cursor() < old(self).tokens().len(),
            old(self).tokens()[old(self).cursor()].kind == KindView::For,
        ensures
            final(self).tokens() == old(self).tokens(),
            old(self).cursor() <= final(self).cursor(),
            stmt_outcome(r, final(self).cursor()) == parse_stmt(
                old(self).tokens(),
                old(self).cursor(),
            ),
            r is Ok ==> old(self).cursor() < final(self).cursor() <= old(self).tokens().len(),
        decreases old(self).tokens().len() - old(self).cursor(), 1int,
    {
        assert(self.tokens@.len() == self.tokens.len());
        self.pos = self.pos + 1;
        match self.expect(TokenKind::LeftParen) {
            Ok(()) => {},
            Err(e) => {
                return Err(e);
            },
        }
        let init = match self.clause(TokenKind::Semicolon) {
            Ok(e) => e,
            Err(e) => {
                return Err(e);
            },
        };
        match self.expect(TokenKind::Semicolon) {
            Ok(()) => {},
            Err(e) => {
                return Err(e);
            },
        }
        let cond = match self.clause(TokenKind::Semicolon) {
            Ok(e) => e,
            Err(e) => {
                return Err(e);
            },
        };
        match self.expect(TokenKind::Semicolon) {
            Ok(()) => {},
            Err(e) => {
                return Err(e);
            },
        }
        let update = match self.clause(TokenKind::RightParen) {
            Ok(e) => e,
            Err(e) => {
                return Err(e);
            },
        };
        match self.expect(TokenKind::RightParen) {
            Ok(()) => {},
            Err(e) => {
                return Err(e);
            },
        }
        match self.block() {
            Ok(body) => Ok(Statement::For(For { init, cond, update, body })),
            Err(e) => Err(e),
        }
    }

    fn block_statement(&mut self) -> (r: ParseResult<Statement>)
        requires
            old(self).cursor() < old(self).tokens().len(),
            old(self).tokens()[old(self).cursor()].kind == KindView::LeftBlock,
        ensures
            final(self).tokens() == old(self).tokens(),
            old(self).cursor() <= final(self).cursor(),
            stmt_outcome(r, final(self).cursor()) == parse_stmt(
                old(self).tokens(),
                old(self).cursor(),
            ),
            r is Ok ==> old(self).cursor() < final(self).cursor() <= old(self).tokens().len(),
        decreases old(self).tokens().len() - old(self).cursor(), 1int,
    {
        match self.block() {
            Ok(body) => Ok(Statement::BlockStatement(body)),
            Err(e) => Err(e),
        }
    }

    /// A block: `{`, statements, `}`.
    fn block(&mut self) -> (r: ParseResult<Vec<Statement>>)
        ensures
            final(self).tokens() == old(self).tokens(),
            old(self).cursor() <= final(self).cursor(),
            block_outcome(r, final(self).cursor()) == parse_block(
                old(self).tokens(),
                old(self).cursor(),
            ),
            r is Ok ==> old(self).cursor() < final(self).cursor() <= old(self).tokens().len(),
        decreases old(self).tokens().len() - old(self).cursor(), 0int,
    {
        let ghost ts = self.tokens();
        match self.expect(TokenKind::LeftBlock) {
            Ok(()) => {},
            Err(e) => {
                return Err(e);
            },
        }
        let ghost inside = self.cursor();
        let mut body: Vec<Statement> = Vec::new();
        proof {
            match parse_block_rest(ts, inside) {
                Ok((more, _)) => {
                    assert(stmt_views(body@) + more == more);
                },
                Err(_) => {},
            }
        }
        while self.pos < self.tokens.len() && !self.tokens[self.pos].kind.same(
            &TokenKind::RightBlock,
        )
            invariant
                self.tokens() == ts,
                ts == old(self).tokens(),
                inside == old(self).cursor() + 1,
                parse_block(ts, old(self).cursor()) == parse_block_rest(ts, inside),
                0 <= inside <= self.cursor() <= ts.len(),
                parse_block_rest(ts, inside) == prepend_block(
                    stmt_views(body@),
                    parse_block_rest(ts, self.cursor()),
                ),
            decreases ts.len() - self.cursor(),
        {
            let ghost before = stmt_views(body@);
            match self.stmt() {
                Ok(s) => {
                    proof {
                        lemma_stmt_views_push(body@, s);
                        match parse_block_rest(ts, self.cursor()) {
                            Ok((more, _)) => {
                                assert(before + (seq![s@] + more) == (before + seq![s@]) + more);
                            },
                            Err(_) => {},
                        }
                    }
                    body.push(s);
                },
                Err(e) => {
                    return Err(e);
                },
            }
        }
        proof {
            assert(stmt_views(body@) + Seq::<Stmt>::empty() == stmt_views(body@));
        }
        match self.expect(TokenKind::RightBlock) {
            Ok(()) => Ok(body),
            Err(e) => Err(e),
        }
    }

    /// An expression whose binary operators all bind at `min_prec` or tighter.
    fn expr(&mut self, min_prec: u8) -> (r: ParseResult<Expression>)
        ensures
            final(self).tokens() == old(self).tokens(),
            old(self).cursor() <= final(self).cursor(),
            expr_outcome(r, final(self).cursor()) == parse_expr(
                old(self).tokens(),
                old(self).cursor(),
                min_prec as int,
            ),
            r is Ok ==> old(self).cursor() < final(self).cursor() <= old(self).tokens().len(),
        decreases old(self).tokens().len() - old(self).cursor(), 2int,
    {
        let ghost ts = self.tokens();
        let ghost first = self.cursor();
        let mut lhs = match self.primary() {
            Ok(e) => e,
            Err(e) => {
                return Err(e);
            },
        };
        loop
            invariant_except_break
                parse_expr(ts, first, min_prec as int) == parse_operators(
                    ts,
                    self.cursor(),
                    min_prec as int,
                    lhs@,
                ),
            invariant
                self.tokens() == ts,
                ts == old(self).tokens(),
                first == old(self).cursor(),
                0 <= first < self.cursor() <= ts.len(),
            ensures
                parse_expr(ts, first, min_prec as int) == Ok::<(Expr, int), SyntaxErrorView>(
                    (lhs@, self.cursor()),
                ),
            decreases ts.len() - self.cursor(),
        {
            if self.pos >= self.tokens.len() {
                break ;
            }
            let op = match BinaryOp::from_kind(&self.tokens[self.pos].kind) {
                Some(op) => op,
                None => {
                    break ;
                },
            };
            let info = op.op_info();
            if !info.binds_at(min_prec) {
                break ;
            }
            let is_assign = match op {
                BinaryOp::Assign => true,
                _ => false,
            };
            let is_var = match &lhs {
                Expression::Var(_) => true,
                _ => false,
            };
            if is_assign && !is_var {
                return Err(SyntaxError::InvalidAssignmentTarget(self.tokens[self.pos].duplicate()));
            }
            self.pos = self.pos + 1;
            let next_prec: u8 = match info.assoc {
                crate::ast::Assoc::Left => info.prec + 1,
                crate::ast::Assoc::Right => info.prec,
            };
            let rhs = match self.expr(next_prec) {
                Ok(e) => e,
                Err(e) => {
                    return Err(e);
                },
            };
            lhs = Expression::Binary { lhs: Box::new(lhs), op, rhs: Box::new(rhs) };
        }
        Ok(lhs)
    }

    /// An operand: a literal, a variable, a negation or a parenthesised expression.
    fn primary(&mut self) -> (r: ParseResult<Expression>)
        ensures
            final(self).tokens() == old(self).tokens(),
            old(self).cursor() <= final(self).cursor(),
            expr_outcome(r, final(self).cursor()) == parse_primary(
                old(self).tokens(),
                old(self).cursor(),
            ),
            r is Ok ==> old(self).cursor() < final(self).cursor() <= old(self).tokens().len(),
        decreases old(self).tokens().len() - old(self).cursor(), 1int,
    {
        if self.pos >= self.tokens.len() {
            return Err(SyntaxError::UnexpectedEof);
        }
        let at = self.pos;
        self.pos = self.pos + 1;
        match &self.tokens[at].kind {
            TokenKind::Num(n) => Ok(Expression::Value(*n)),
            TokenKind::Ident(name) => Ok(Expression::Var(name.clone())),
            TokenKind::Minus => match self.expr(prec::UNARY) {
                Ok(operand) => Ok(
                    Expression::Unary { op: UnaryOp::Minus, operand: Box::new(operand) },
                ),
                Err(e) => Err(e),
            },
            TokenKind::LeftParen => {
                let inner = match self.expr(prec::LOWEST) {
                    Ok(e) => e,
                    Err(e) => {
                        return Err(e);
                    },
                };
                match self.expect(TokenKind::RightParen) {
                    Ok(()) => Ok(inner),
                    Err(_) => Err(SyntaxError::UnmatchedLeftParen(self.tokens[at].duplicate())),
                }
            },
            _ => Err(SyntaxError::UnexpectedToken(self.tokens[at].duplicate())),
        }
    }

    /// Demands a token of the given kind under the cursor and steps over it.
    /// A token of another kind is stepped over too, and is the error.
    fn expect(&mut self, expected: TokenKind) -> (r: Result<(), SyntaxError>)
        ensures
            final(self).tokens() == old(self).tokens(),
            old(self).cursor() <= final(self).cursor(),
            match r {
                Ok(()) => expect_at(old(self).tokens(), old(self).cursor(), expected@) == Ok::<
                    int,
                    SyntaxErrorView,
                >(final(self).cursor()),
                Err(e) => expect_at(old(self).tokens(), old(self).cursor(), expected@) == Err::<
                    int,
                    SyntaxErrorView,
                >(e@),
            },
            r is Ok ==> final(self).cursor() == old(self).cursor() + 1 && final(self).cursor()
                <= old(self).tokens().len(),
    {
        if self.pos >= self.tokens.len() {
            return Err(SyntaxError::UnexpectedEof);
        }
        let at = self.pos;
        self.pos = self.pos + 1;
        if self.tokens[at].kind.same(&expected) {
            Ok(())
        } else {
            Err(SyntaxError::UnexpectedToken(self.tokens[at].duplicate()))
        }
    }

    fn is_eof(&self) -> (b: bool)
        ensures
            b == (self.cursor() >= self.tokens().len()),
    {
        self.pos >= self.tokens.len()
    }
}

} // verus!
