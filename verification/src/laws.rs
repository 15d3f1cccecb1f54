//! What holds of the language as a whole, proved from the definitions.

use crate::ast::BinaryOp;
use crate::ast::Expr;
use crate::ast::Stmt;
use crate::chars::byte_offset;
use crate::chars::lemma_byte_offset_monotonic;
use crate::lexer::lemma_scan_bounds;
use crate::lexer::lemma_skip_spaces_bounds;
use crate::lexer::lex_from;
use crate::lexer::next_token_at;
use crate::lexer::scan;
use crate::lexer::skip_spaces;
use crate::lexer::lex_result_view;
use crate::lexer::LexicalError;
use crate::parser::expect_at;
use crate::parser::lemma_expr_advances;
use crate::parser::parse_block;
use crate::parser::parse_block_rest;
use crate::parser::parse_condition;
use crate::parser::parse_expr;
use crate::parser::parse_operators;
use crate::parser::parse_primary;
use crate::parser::SyntaxErrorView;
use crate::ast::binary_op_of;
use crate::ast::Assoc;
use crate::parser::parse_for_head;
use crate::parser::parse_stmt;
use crate::semantics::eval_expr;
use crate::semantics::exec_block;
use crate::semantics::exec_loop;
use crate::semantics::exec_stmt;
use crate::semantics::pow32;
use crate::semantics::trunc_div;
use crate::semantics::truth;
use crate::semantics::wrap32;
use crate::semantics::Env;
use crate::semantics::Machine;
use crate::semantics::RuntimeErrorView;
use crate::token::KindView;
use crate::token::Token;
use crate::token::TokenView;
use vstd::prelude::*;

verus! {

/// Lexing is repeatable: two runs over the same text from the same place
/// give the same tokens, spans included, or the same error.
pub proof fn lemma_lex_repeatable(
    source: Seq<char>,
    from: int,
    first: Result<Vec<Token>, LexicalError>,
    second: Result<Vec<Token>, LexicalError>,
)
    requires
        lex_result_view(first) == lex_from(source, from).result,
        lex_result_view(second) == lex_from(source, from).result,
    ensures
        lex_result_view(first) == lex_result_view(second),
        first is Ok <==> second is Ok,
        first matches Ok(a) ==> second matches Ok(b) ==> a@.len() == b@.len() && forall|i: int|
            0 <= i < a@.len() ==> a@[i]@ == b@[i]@,
{
    match (first, second) {
        (Ok(a), Ok(b)) => {
            let va = crate::token::token_views(a@);
            let vb = crate::token::token_views(b@);
            assert(va == vb);
            assert(va.len() == a@.len());
            assert(vb.len() == b@.len());
            assert forall|i: int| 0 <= i < a@.len() implies a@[i]@ == b@[i]@ by {
                assert(va[i] == a@[i]@);
                assert(vb[i] == b@[i]@);
            }
        },
        _ => {},
    }
}

/// The end of input is no error of a whole run: it ends the run, and the
/// tokens read so far are the result.
pub proof fn lemma_eof_ends_the_run(source: Seq<char>, from: int)
    ensures
        lex_from(source, from).result != Err::<Seq<TokenView>, crate::lexer::LexErrorView>(
            crate::lexer::LexErrorView::Eof,
        ),
    decreases source.len() - from,
{
    let step = next_token_at(source, from);
    match step.result {
        Ok(_) => {
            if 0 <= from < step.end <= source.len() {
                lemma_eof_ends_the_run(source, step.end);
            }
        },
        Err(_) => {},
    }
}

/// Whether the spans of the tokens lie between the byte offsets `lo` and
/// `hi`, are not empty, and follow each other without overlap.
pub open spec fn spans_in_order(tokens: Seq<TokenView>, lo: int, hi: int) -> bool {
    &&& forall|k: int|
        0 <= k < tokens.len() ==> lo <= (#[trigger] tokens[k]).span.start < tokens[k].span.end
            <= hi
    &&& forall|k: int, l: int|
        0 <= k < l < tokens.len() ==> (#[trigger] tokens[k]).span.end <= (
        #[trigger] tokens[l]).span.start
}

/// Spans point into the text: every token's span is a range of bytes of
/// the text that is not empty, and the spans come in the order of the
/// tokens without overlap.
pub proof fn lemma_spans_in_order(source: Seq<char>, from: int)
    requires
        0 <= from <= source.len(),
        byte_offset(source, source.len() as int) <= usize::MAX,
    ensures
        lex_from(source, from).result matches Ok(tokens) ==> spans_in_order(
            tokens,
            byte_offset(source, from) as int,
            byte_offset(source, source.len() as int) as int,
        ),
    decreases source.len() - from,
{
    let step = next_token_at(source, from);
    let total = source.len() as int;
    lemma_skip_spaces_bounds(source, from);
    let start = skip_spaces(source, from);
    if start < source.len() {
        lemma_scan_bounds(source, start);
        let end = scan(source, start).end;
        lemma_byte_offset_monotonic(source, from, start);
        lemma_byte_offset_monotonic(source, start, end);
        lemma_byte_offset_monotonic(source, end, total);
        match step.result {
            Ok(token) => {
                lemma_spans_in_order(source, end);
                match lex_from(source, end).result {
                    Ok(rest) => {
                        let all = seq![token] + rest;
                        let lo = byte_offset(source, from) as int;
                        let hi = byte_offset(source, total) as int;
                        assert(lex_from(source, from).result == Ok::<
                            Seq<TokenView>,
                            crate::lexer::LexErrorView,
                        >(all));
                        assert forall|k: int| 0 <= k < all.len() implies lo <= (
                        #[trigger] all[k]).span.start < all[k].span.end <= hi by {
                            if k > 0 {
                                assert(all[k] == rest[k - 1]);
                            }
                        }
                        assert forall|k: int, l: int| 0 <= k < l < all.len() implies (
                        #[trigger] all[k]).span.end <= (#[trigger] all[l]).span.start by {
                            assert(all[l] == rest[l - 1]);
                            if k > 0 {
                                assert(all[k] == rest[k - 1]);
                            }
                        }
                    },
                    Err(_) => {},
                }
            },
            Err(_) => {},
        }
    }
}

/// Reading a variable that nothing was assigned to is the error
/// `UnboundVariable` with the variable's name, and changes no variable.
pub proof fn lemma_unbound_read(name: Seq<char>, env: Env)
    requires
        !env.contains_key(name),
    ensures
        eval_expr(Expr::Var(name), env).value == Err::<i32, RuntimeErrorView>(
            RuntimeErrorView::UnboundVariable(name),
        ),
        eval_expr(Expr::Var(name), env).env == env,
{
}

/// Dividing by an operand whose value is zero is the error `DivisionByZero`,
/// whatever the left operand's value is.
pub proof fn lemma_division_by_zero(lhs: Expr, rhs: Expr, env: Env)
    requires
        eval_expr(lhs, env).value is Ok,
        eval_expr(rhs, eval_expr(lhs, env).env).value == Ok::<i32, RuntimeErrorView>(0),
    ensures
        eval_expr(
            Expr::Binary { lhs: Box::new(lhs), op: BinaryOp::Div, rhs: Box::new(rhs) },
            env,
        ).value == Err::<i32, RuntimeErrorView>(RuntimeErrorView::DivisionByZero),
{
}

/// `base` to the power `exp` over the integers.
pub open spec fn power(base: int, exp: nat) -> int
    decreases exp,
{
    if exp == 0 {
        1
    } else {
        power(base, (exp - 1) as nat) * base
    }
}

/// Whether an integer fits 32 signed bits.
pub open spec fn fits(v: int) -> bool {
    i32::MIN <= v <= i32::MAX
}

/// Whether the expression is built from literals and operators alone: it
/// reads no variable and assigns to none.
pub open spec fn is_arithmetic(e: Expr) -> bool
    decreases e,
{
    match e {
        Expr::Value(_) => true,
        Expr::Var(_) => false,
        Expr::Unary { op, operand } => is_arithmetic(*operand),
        Expr::Binary { lhs, op, rhs } => op != BinaryOp::Assign && is_arithmetic(*lhs)
            && is_arithmetic(*rhs),
    }
}

/// The result of an operator on two integers in ordinary arithmetic:
/// division truncates towards zero, a comparison is 1 or 0.
pub open spec fn math_binary(op: BinaryOp, a: int, b: int) -> int {
    match op {
        BinaryOp::Plus => a + b,
        BinaryOp::Minus => a - b,
        BinaryOp::Mul => a * b,
        BinaryOp::Div => trunc_div(a, b),
        BinaryOp::Pow => power(a, b as nat),
        BinaryOp::Eq => truth(a == b) as int,
        BinaryOp::Neq => truth(a != b) as int,
        BinaryOp::Gt => truth(a > b) as int,
        BinaryOp::GtEq => truth(a >= b) as int,
        BinaryOp::Lt => truth(a < b) as int,
        BinaryOp::LtEq => truth(a <= b) as int,
        BinaryOp::Assign => b,
    }
}

/// The integer that an arithmetic expression stands for in ordinary
/// arithmetic, where operators bind as the tree says.
pub open spec fn math_value(e: Expr) -> int
    decreases e,
{
    match e {
        Expr::Value(n) => n as int,
        Expr::Var(_) => 0,
        Expr::Unary { op, operand } => -math_value(*operand),
        Expr::Binary { lhs, op, rhs } => math_binary(op, math_value(*lhs), math_value(*rhs)),
    }
}

/// Whether ordinary arithmetic on the expression stays within what the
/// machine can hold: every part's value fits 32 signed bits, no divisor is
/// zero and no exponent is negative.
pub open spec fn in_range(e: Expr) -> bool
    decreases e,
{
    match e {
        Expr::Value(_) => true,
        Expr::Var(_) => true,
        Expr::Unary { op, operand } => in_range(*operand) && fits(math_value(e)),
        Expr::Binary { lhs, op, rhs } => {
            &&& in_range(*lhs)
            &&& in_range(*rhs)
            &&& fits(math_value(e))
            &&& op == BinaryOp::Div ==> math_value(*rhs) != 0
            &&& op == BinaryOp::Pow ==> math_value(*rhs) >= 0
        },
    }
}

proof fn lemma_wrap_fits(v: int)
    requires
        fits(v),
    ensures
        wrap32(v) == v,
{
}

proof fn lemma_power_of_unit(base: int, exp: nat)
    requires
        base == 1 || base == -1,
    ensures
        power(base, exp) == 1 || power(base, exp) == -1,
    decreases exp,
{
    if exp > 0 {
        lemma_power_of_unit(base, (exp - 1) as nat);
    }
}

/// Where a power fits 32 signed bits, so does the power before it.
proof fn lemma_power_fits_before(base: int, exp: nat)
    requires
        base != 0,
        exp >= 1,
        fits(power(base, exp)),
    ensures
        fits(power(base, (exp - 1) as nat)),
{
    let p = power(base, (exp - 1) as nat);
    assert(power(base, exp) == p * base);
    if base == 1 || base == -1 {
        lemma_power_of_unit(base, (exp - 1) as nat);
    } else {
        assert(2 * p <= p * base || 2 * p <= -(p * base)) by (nonlinear_arith)
            requires
                base >= 2 || base <= -2,
        ;
        assert(-2 * p <= p * base || -2 * p <= -(p * base)) by (nonlinear_arith)
            requires
                base >= 2 || base <= -2,
        ;
    }
}

/// Repeated wrapping multiplication is the power over the integers, where
/// that power fits 32 signed bits.
pub proof fn lemma_pow32_is_power(base: i32, exp: nat)
    requires
        fits(power(base as int, exp)),
    ensures
        pow32(base, exp) == power(base as int, exp),
    decreases exp,
{
    if exp > 0 {
        let before = (exp - 1) as nat;
        if base == 0 {
            assert(power(base as int, exp) == power(base as int, before) * 0);
            assert(pow32(base, exp) == wrap32(pow32(base, before) * 0));
            assert(pow32(base, before) * 0 == 0) by (nonlinear_arith);
            assert(power(base as int, before) * 0 == 0) by (nonlinear_arith);
        } else {
            lemma_power_fits_before(base as int, exp);
            lemma_pow32_is_power(base, before);
            lemma_wrap_fits(power(base as int, exp));
        }
    }
}

/// The interpreter agrees with ordinary integer arithmetic. On an
/// expression of literals and operators, of which every part stays within
/// 32 signed bits, divides by no zero and raises to no negative power, the
/// value is the integer that the expression stands for, with division
/// truncating towards zero; and no variable changes.
pub proof fn lemma_arithmetic_is_conventional(e: Expr, env: Env)
    requires
        is_arithmetic(e),
        in_range(e),
    ensures
        eval_expr(e, env).value == Ok::<i32, RuntimeErrorView>(math_value(e) as i32),
        eval_expr(e, env).env == env,
        fits(math_value(e)),
    decreases e,
{
    match e {
        Expr::Value(_) => {},
        Expr::Var(_) => {},
        Expr::Unary { op, operand } => {
            lemma_arithmetic_is_conventional(*operand, env);
            lemma_wrap_fits(math_value(e));
        },
        Expr::Binary { lhs, op, rhs } => {
            lemma_arithmetic_is_conventional(*lhs, env);
            lemma_arithmetic_is_conventional(*rhs, env);
            let a = math_value(*lhs);
            let b = math_value(*rhs);
            lemma_wrap_fits(math_value(e));
            if op == BinaryOp::Pow {
                assert(a as i32 == a);
                lemma_pow32_is_power(a as i32, b as nat);
            }
        },
    }
}

/// Running a statement never adds to the budget of loop runs.
pub proof fn lemma_stmt_budget(s: Stmt, m: Machine)
    ensures
        exec_stmt(s, m).state.budget <= m.budget,
    decreases m.budget, s, 0int,
{
    match s {
        Stmt::Expression(_) => {},
        Stmt::Block(body) => {
            lemma_block_budget(body, 0, m, 0);
        },
        Stmt::If { cond, then } => {
            let c = eval_expr(cond, m.env);
            lemma_block_budget(then, 0, Machine { env: c.env, budget: m.budget }, 0);
        },
        Stmt::While { cond, body } => {
            lemma_loop_budget(cond, None, body, m, 0);
        },
        Stmt::For { init, cond, update, body } => {
            let first = match init {
                Some(e) => eval_expr(e, m.env),
                None => crate::semantics::Evaluated { value: Ok(0), env: m.env },
            };
            match (first.value, cond) {
                (Ok(v), Some(c)) => {
                    lemma_loop_budget(
                        c,
                        update,
                        body,
                        Machine { env: first.env, budget: m.budget },
                        v,
                    );
                },
                _ => {},
            }
        },
    }
}

/// Running statements in order never adds to the budget of loop runs.
pub proof fn lemma_block_budget(body: Seq<Stmt>, from: int, m: Machine, last: i32)
    ensures
        exec_block(body, from, m, last).state.budget <= m.budget,
    decreases m.budget, body, body.len() - from,
{
    if 0 <= from < body.len() {
        lemma_stmt_budget(body[from], m);
        let first = exec_stmt(body[from], m);
        match first.value {
            Ok(v) => {
                lemma_block_budget(body, from + 1, first.state, v);
            },
            Err(_) => {},
        }
    }
}

/// Running a loop never adds to the budget of loop runs.
pub proof fn lemma_loop_budget(
    cond: Expr,
    update: Option<Expr>,
    body: Seq<Stmt>,
    m: Machine,
    last: i32,
)
    ensures
        exec_loop(cond, update, body, m, last).state.budget <= m.budget,
    decreases m.budget, body, body.len() + 1,
{
    let c = eval_expr(cond, m.env);
    match c.value {
        Ok(v) => {
            if v > 0 && m.budget > 0 {
                let inner = Machine { env: c.env, budget: (m.budget - 1) as nat };
                lemma_block_budget(body, 0, inner, last);
                let ran = exec_block(body, 0, inner, last);
                match ran.value {
                    Ok(r) => {
                        let stepped = match update {
                            Some(u) => eval_expr(u, ran.state.env),
                            None => crate::semantics::Evaluated { value: Ok(0), env: ran.state.env },
                        };
                        match stepped.value {
                            Ok(_) => {
                                lemma_loop_budget(
                                    cond,
                                    update,
                                    body,
                                    Machine { env: stepped.env, budget: ran.state.budget },
                                    r,
                                );
                            },
                            Err(_) => {},
                        }
                    },
                    Err(_) => {},
                }
            }
        },
        Err(_) => {},
    }
}

/// Every statement that parses consumes at least one token and stays
/// within the input.
pub proof fn lemma_stmt_advances(ts: Seq<TokenView>, pos: int)
    ensures
        parse_stmt(ts, pos) matches Ok((_, next)) ==> 0 <= pos < next <= ts.len(),
    decreases ts.len() - pos, 2int,
{
    if 0 <= pos < ts.len() {
        match ts[pos].kind {
            KindView::If | KindView::While => {
                match parse_condition(ts, pos) {
                    Ok((_, next)) => {
                        if 0 <= pos < next <= ts.len() {
                            lemma_block_advances(ts, next);
                        }
                    },
                    Err(_) => {},
                }
            },
            KindView::For => {
                match parse_for_head(ts, pos) {
                    Ok((_, next)) => {
                        if 0 <= pos < next <= ts.len() {
                            lemma_block_advances(ts, next);
                        }
                    },
                    Err(_) => {},
                }
            },
            KindView::LeftBlock => {
                lemma_block_advances(ts, pos);
            },
            _ => {
                lemma_expr_advances(ts, pos, crate::ast::prec::LOWEST as int);
            },
        }
    }
}

/// Every block that parses consumes at least two tokens and stays within
/// the input.
pub proof fn lemma_block_advances(ts: Seq<TokenView>, pos: int)
    ensures
        parse_block(ts, pos) matches Ok((_, next)) ==> 0 <= pos < next <= ts.len(),
    decreases ts.len() - pos, 1int,
{
    match expect_at(ts, pos, KindView::LeftBlock) {
        Ok(inside) => {
            lemma_block_rest_advances(ts, inside);
        },
        Err(_) => {},
    }
}

proof fn lemma_block_rest_advances(ts: Seq<TokenView>, pos: int)
    ensures
        parse_block_rest(ts, pos) matches Ok((_, next)) ==> 0 <= pos < next <= ts.len(),
    decreases ts.len() - pos, 3int,
{
    if 0 <= pos < ts.len() && ts[pos].kind != KindView::RightBlock {
        lemma_stmt_advances(ts, pos);
        match parse_stmt(ts, pos) {
            Ok((_, next)) => {
                if 0 <= pos < next <= ts.len() {
                    lemma_block_rest_advances(ts, next);
                }
            },
            Err(_) => {},
        }
    }
}


/// Whether the tokens from `pos` on spell `a op b op c` with three literals
/// and one operator twice, followed by a token that is no operator.
pub open spec fn spells_chain(ts: Seq<TokenView>, pos: int, a: i32, op: BinaryOp, b: i32, c: i32) -> bool {
    &&& 0 <= pos
    &&& pos + 5 < ts.len()
    &&& ts[pos].kind == KindView::Num(a)
    &&& binary_op_of(ts[pos + 1].kind) == Some(op)
    &&& ts[pos + 2].kind == KindView::Num(b)
    &&& binary_op_of(ts[pos + 3].kind) == Some(op)
    &&& ts[pos + 4].kind == KindView::Num(c)
    &&& binary_op_of(ts[pos + 5].kind) is None
}

/// An operator that groups to the left nests to the left: `a op b op c` is
/// `(a op b) op c`.
pub proof fn lemma_left_operators_nest_left(
    ts: Seq<TokenView>,
    pos: int,
    a: i32,
    op: BinaryOp,
    b: i32,
    c: i32,
)
    requires
        spells_chain(ts, pos, a, op, b, c),
        op.spec_op_info().assoc == Assoc::Left,
    ensures
        parse_expr(ts, pos, 0) == Ok::<(Expr, int), SyntaxErrorView>(
            (
                Expr::Binary {
                    lhs: Box::new(
                        Expr::Binary {
                            lhs: Box::new(Expr::Value(a)),
                            op,
                            rhs: Box::new(Expr::Value(b)),
                        },
                    ),
                    op,
                    rhs: Box::new(Expr::Value(c)),
                },
                pos + 5,
            ),
        ),
{
    let p = op.spec_op_info().prec as int;
    let ab = Expr::Binary { lhs: Box::new(Expr::Value(a)), op, rhs: Box::new(Expr::Value(b)) };
    let abc = Expr::Binary { lhs: Box::new(ab), op, rhs: Box::new(Expr::Value(c)) };
    assert(parse_primary(ts, pos) == Ok::<(Expr, int), SyntaxErrorView>((Expr::Value(a), pos + 1)));
    assert(parse_primary(ts, pos + 2) == Ok::<(Expr, int), SyntaxErrorView>(
        (Expr::Value(b), pos + 3),
    ));
    assert(parse_primary(ts, pos + 4) == Ok::<(Expr, int), SyntaxErrorView>(
        (Expr::Value(c), pos + 5),
    ));
    assert(parse_operators(ts, pos + 3, p + 1, Expr::Value(b)) == Ok::<(Expr, int), SyntaxErrorView>(
        (Expr::Value(b), pos + 3),
    ));
    assert(parse_expr(ts, pos + 2, p + 1) == Ok::<(Expr, int), SyntaxErrorView>(
        (Expr::Value(b), pos + 3),
    ));
    assert(parse_operators(ts, pos + 5, p + 1, Expr::Value(c)) == Ok::<(Expr, int), SyntaxErrorView>(
        (Expr::Value(c), pos + 5),
    ));
    assert(parse_expr(ts, pos + 4, p + 1) == Ok::<(Expr, int), SyntaxErrorView>(
        (Expr::Value(c), pos + 5),
    ));
    assert(parse_operators(ts, pos + 5, 0, abc) == Ok::<(Expr, int), SyntaxErrorView>(
        (abc, pos + 5),
    ));
    assert(parse_operators(ts, pos + 3, 0, ab) == Ok::<(Expr, int), SyntaxErrorView>(
        (abc, pos + 5),
    ));
    assert(parse_operators(ts, pos + 1, 0, Expr::Value(a)) == Ok::<(Expr, int), SyntaxErrorView>(
        (abc, pos + 5),
    ));
}

/// `^` groups to the right: `a ^ b ^ c` is `a ^ (b ^ c)`.
pub proof fn lemma_pow_nests_right(ts: Seq<TokenView>, pos: int, a: i32, b: i32, c: i32)
    requires
        spells_chain(ts, pos, a, BinaryOp::Pow, b, c),
    ensures
        parse_expr(ts, pos, 0) == Ok::<(Expr, int), SyntaxErrorView>(
            (
                Expr::Binary {
                    lhs: Box::new(Expr::Value(a)),
                    op: BinaryOp::Pow,
                    rhs: Box::new(
                        Expr::Binary {
                            lhs: Box::new(Expr::Value(b)),
                            op: BinaryOp::Pow,
                            rhs: Box::new(Expr::Value(c)),
                        },
                    ),
                },
                pos + 5,
            ),
        ),
{
    let op = BinaryOp::Pow;
    let p = op.spec_op_info().prec as int;
    let bc = Expr::Binary { lhs: Box::new(Expr::Value(b)), op, rhs: Box::new(Expr::Value(c)) };
    let abc = Expr::Binary { lhs: Box::new(Expr::Value(a)), op, rhs: Box::new(bc) };
    assert(parse_primary(ts, pos) == Ok::<(Expr, int), SyntaxErrorView>((Expr::Value(a), pos + 1)));
    assert(parse_primary(ts, pos + 2) == Ok::<(Expr, int), SyntaxErrorView>(
        (Expr::Value(b), pos + 3),
    ));
    assert(parse_primary(ts, pos + 4) == Ok::<(Expr, int), SyntaxErrorView>(
        (Expr::Value(c), pos + 5),
    ));
    assert(parse_operators(ts, pos + 5, p, Expr::Value(c)) == Ok::<(Expr, int), SyntaxErrorView>(
        (Expr::Value(c), pos + 5),
    ));
    assert(parse_expr(ts, pos + 4, p) == Ok::<(Expr, int), SyntaxErrorView>(
        (Expr::Value(c), pos + 5),
    ));
    assert(parse_operators(ts, pos + 5, p, bc) == Ok::<(Expr, int), SyntaxErrorView>(
        (bc, pos + 5),
    ));
    assert(parse_operators(ts, pos + 3, p, Expr::Value(b)) == Ok::<(Expr, int), SyntaxErrorView>(
        (bc, pos + 5),
    ));
    assert(parse_expr(ts, pos + 2, p) == Ok::<(Expr, int), SyntaxErrorView>((bc, pos + 5)));
    assert(parse_operators(ts, pos + 5, 0, abc) == Ok::<(Expr, int), SyntaxErrorView>(
        (abc, pos + 5),
    ));
    assert(parse_operators(ts, pos + 1, 0, Expr::Value(a)) == Ok::<(Expr, int), SyntaxErrorView>(
        (abc, pos + 5),
    ));
}


/// The token kind that a binary operator is written as.
pub open spec fn operator_kind(op: BinaryOp) -> KindView {
    match op {
        BinaryOp::Plus => KindView::Plus,
        BinaryOp::Minus => KindView::Minus,
        BinaryOp::Mul => KindView::Mul,
        BinaryOp::Div => KindView::Div,
        BinaryOp::Pow => KindView::Pow,
        BinaryOp::Eq => KindView::Eq,
        BinaryOp::Neq => KindView::Neq,
        BinaryOp::Gt => KindView::Gt,
        BinaryOp::GtEq => KindView::GtEq,
        BinaryOp::Lt => KindView::Lt,
        BinaryOp::LtEq => KindView::LtEq,
        BinaryOp::Assign => KindView::Assign,
    }
}

/// An expression written out from left to right without parentheses.
pub open spec fn written(e: Expr) -> Seq<KindView>
    decreases e,
{
    match e {
        Expr::Value(n) => seq![KindView::Num(n)],
        Expr::Var(name) => seq![KindView::Ident(name)],
        Expr::Unary { op, operand } => seq![KindView::Minus] + written(*operand),
        Expr::Binary { lhs, op, rhs } => written(*lhs) + seq![operator_kind(op)] + written(*rhs),
    }
}

/// The kinds of the tokens `ts[from..to]` that are no parentheses.
pub open spec fn unwrapped(ts: Seq<TokenView>, from: int, to: int) -> Seq<KindView>
    decreases to - from,
{
    if to <= from {
        Seq::empty()
    } else if ts[to - 1].kind == KindView::LeftParen || ts[to - 1].kind == KindView::RightParen {
        unwrapped(ts, from, to - 1)
    } else {
        unwrapped(ts, from, to - 1).push(ts[to - 1].kind)
    }
}

proof fn lemma_unwrapped_split(ts: Seq<TokenView>, from: int, mid: int, to: int)
    requires
        from <= mid <= to,
    ensures
        unwrapped(ts, from, to) == unwrapped(ts, from, mid) + unwrapped(ts, mid, to),
    decreases to - mid,
{
    if mid < to {
        lemma_unwrapped_split(ts, from, mid, to - 1);
        let a = unwrapped(ts, from, mid);
        let b = unwrapped(ts, mid, to - 1);
        if !(ts[to - 1].kind == KindView::LeftParen || ts[to - 1].kind == KindView::RightParen) {
            assert((a + b).push(ts[to - 1].kind) == a + b.push(ts[to - 1].kind));
        }
    } else {
        assert(unwrapped(ts, from, mid) + Seq::<KindView>::empty() == unwrapped(ts, from, mid));
    }
}

proof fn lemma_unwrapped_one(ts: Seq<TokenView>, at: int)
    ensures
        unwrapped(ts, at, at + 1) == if ts[at].kind == KindView::LeftParen || ts[at].kind
            == KindView::RightParen {
            Seq::<KindView>::empty()
        } else {
            seq![ts[at].kind]
        },
{
    assert(unwrapped(ts, at, at) == Seq::<KindView>::empty());
    assert(Seq::<KindView>::empty().push(ts[at].kind) == seq![ts[at].kind]);
}

/// Parsing keeps every token in its place: the expression that comes out,
/// written from left to right, is the tokens that went in, less their
/// parentheses.
pub proof fn lemma_expr_keeps_tokens(ts: Seq<TokenView>, pos: int, min_prec: int)
    ensures
        parse_expr(ts, pos, min_prec) matches Ok((e, next)) ==> written(e) == unwrapped(
            ts,
            pos,
            next,
        ),
        parse_primary(ts, pos) matches Ok((e, next)) ==> written(e) == unwrapped(ts, pos, next),
    decreases ts.len() - pos, 2int,
{
    if 0 <= pos < ts.len() {
        lemma_unwrapped_one(ts, pos);
        match ts[pos].kind {
            KindView::Minus => {
                lemma_expr_keeps_tokens(ts, pos + 1, crate::ast::prec::UNARY as int);
                lemma_expr_advances(ts, pos + 1, crate::ast::prec::UNARY as int);
                match parse_expr(ts, pos + 1, crate::ast::prec::UNARY as int) {
                    Ok((_, next)) => {
                        lemma_unwrapped_split(ts, pos, pos + 1, next);
                    },
                    Err(_) => {},
                }
            },
            KindView::LeftParen => {
                lemma_expr_keeps_tokens(ts, pos + 1, crate::ast::prec::LOWEST as int);
                lemma_expr_advances(ts, pos + 1, crate::ast::prec::LOWEST as int);
                match parse_expr(ts, pos + 1, crate::ast::prec::LOWEST as int) {
                    Ok((inner, next)) => {
                        if next < ts.len() && ts[next].kind == KindView::RightParen {
                            lemma_unwrapped_split(ts, pos, pos + 1, next + 1);
                            lemma_unwrapped_split(ts, pos + 1, next, next + 1);
                            lemma_unwrapped_one(ts, next);
                            assert(Seq::<KindView>::empty() + (written(inner) + Seq::<
                                KindView,
                            >::empty()) == written(inner));
                        }
                    },
                    Err(_) => {},
                }
            },
            _ => {},
        }
        match parse_primary(ts, pos) {
            Ok((lhs, next)) => {
                lemma_expr_advances(ts, pos, min_prec);
                if 0 <= pos < next <= ts.len() {
                    lemma_operators_keep_tokens(ts, pos, next, min_prec, lhs);
                }
            },
            Err(_) => {},
        }
    }
}

/// The climbing loop keeps every token in its place.
pub proof fn lemma_operators_keep_tokens(
    ts: Seq<TokenView>,
    start: int,
    pos: int,
    min_prec: int,
    lhs: Expr,
)
    requires
        0 <= start <= pos <= ts.len(),
        written(lhs) == unwrapped(ts, start, pos),
    ensures
        parse_operators(ts, pos, min_prec, lhs) matches Ok((e, next)) ==> written(e) == unwrapped(
            ts,
            start,
            next,
        ),
    decreases ts.len() - pos, 1int,
{
    if pos < ts.len() {
        match binary_op_of(ts[pos].kind) {
            Some(op) => {
                let info = op.spec_op_info();
                if info.prec >= min_prec && !(op == BinaryOp::Assign && !(lhs is Var)) {
                    lemma_expr_keeps_tokens(ts, pos + 1, info.spec_rhs_prec());
                    lemma_expr_advances(ts, pos + 1, info.spec_rhs_prec());
                    match parse_expr(ts, pos + 1, info.spec_rhs_prec()) {
                        Ok((rhs, next)) => {
                            let folded = Expr::Binary {
                                lhs: Box::new(lhs),
                                op,
                                rhs: Box::new(rhs),
                            };
                            assert(ts[pos].kind == operator_kind(op));
                            lemma_unwrapped_one(ts, pos);
                            lemma_unwrapped_split(ts, start, pos, next);
                            lemma_unwrapped_split(ts, pos, pos + 1, next);
                            assert(written(folded) == unwrapped(ts, start, next)) by {
                                assert(written(lhs) + seq![operator_kind(op)] + written(rhs)
                                    == written(lhs) + (seq![operator_kind(op)] + written(rhs)));
                            }
                            lemma_operators_keep_tokens(ts, start, next, min_prec, folded);
                        },
                        Err(_) => {},
                    }
                }
            },
            None => {},
        }
    }
}

} // verus!
