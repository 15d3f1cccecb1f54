//! The evaluator: walks the tree and computes what the semantics say.

use crate::ast::option_view;
use crate::ast::stmt_views;
use crate::ast::BinaryOp;
use crate::ast::Expr;
use crate::ast::Expression;
use crate::ast::For;
use crate::ast::If;
use crate::ast::Program;
use crate::ast::Statement;
use crate::ast::While;
use crate::environment::Environment;
use crate::semantics::apply_binary;
use crate::ast::block_targets_ok;
use crate::semantics::eval_expr;
use crate::semantics::exec_block;
use crate::semantics::exec_loop;
use crate::semantics::exec_program;
use crate::semantics::exec_stmt;
use crate::ast::option_targets_ok;
use crate::semantics::pow32;
use crate::ast::stmt_targets_ok;
use crate::ast::targets_ok;
use crate::semantics::trunc_div;
use crate::semantics::wrap32;
use crate::semantics::Env;
use crate::semantics::Machine;
use crate::semantics::RuntimeErrorView;
use vstd::prelude::*;

verus! {

/// What can go wrong while a program runs.
#[derive(Debug, PartialEq)]
pub enum RuntimeError {
    /// The right side of a `/` was zero.
    DivisionByZero,
    /// A variable was read before anything was assigned to it.
    UnboundVariable(String),
    /// The right side of a `^` was negative.
    NegativeExponent,
    /// A loop wanted to go on after the budget of loop runs was used up.
    StepLimitExceeded,
}

impl View for RuntimeError {
    type V = RuntimeErrorView;

    open spec fn view(&self) -> RuntimeErrorView {
        match self {
            RuntimeError::DivisionByZero => RuntimeErrorView::DivisionByZero,
            RuntimeError::UnboundVariable(name) => RuntimeErrorView::UnboundVariable(name@),
            RuntimeError::NegativeExponent => RuntimeErrorView::NegativeExponent,
            RuntimeError::StepLimitExceeded => RuntimeErrorView::StepLimitExceeded,
        }
    }
}

/// A value, or the error that ended the run.
pub type EvalResult = Result<i32, RuntimeError>;

/// The value of an evaluation result.
pub open spec fn result_view(r: EvalResult) -> Result<i32, RuntimeErrorView> {
    match r {
        Ok(v) => Ok(v),
        Err(e) => Err(e@),
    }
}

/// `base` raised to the power `exp` by repeated wrapping multiplication.
pub fn power(base: i32, exp: u32) -> (p: i32)
    ensures
        p == pow32(base, exp as nat),
{
    let mut p: i32 = 1;
    let mut done: u32 = 0;
    while done < exp
        invariant
            done <= exp,
            p == pow32(base, done as nat),
        decreases exp - done,
    {
        p = p.wrapping_mul(base);
        done = done + 1;
    }
    p
}

/// Division that truncates towards zero and wraps where the quotient does
/// not fit, which is at `i32::MIN / -1` alone.
pub fn divide(a: i32, b: i32) -> (q: i32)
    requires
        b != 0,
    ensures
        q == wrap32(trunc_div(a as int, b as int)),
{
    match a.checked_div(b) {
        Some(q) => q,
        None => i32::MIN,
    }
}

/// The value of a binary operator other than `=` on two numbers.
pub fn apply(op: BinaryOp, a: i32, b: i32) -> (r: EvalResult)
    ensures
        result_view(r) == apply_binary(op, a, b),
{
    match op {
        BinaryOp::Plus => Ok(a.wrapping_add(b)),
        BinaryOp::Minus => Ok(a.wrapping_sub(b)),
        BinaryOp::Mul => Ok(a.wrapping_mul(b)),
        BinaryOp::Div => if b == 0 {
            Err(RuntimeError::DivisionByZero)
        } else {
            Ok(divide(a, b))
        },
        BinaryOp::Pow => if b < 0 {
            Err(RuntimeError::NegativeExponent)
        } else {
            Ok(power(a, b as u32))
        },
        BinaryOp::Eq => Ok(if a == b { 1 } else { 0 }),
        BinaryOp::Neq => Ok(if a != b { 1 } else { 0 }),
        BinaryOp::Gt => Ok(if a > b { 1 } else { 0 }),
        BinaryOp::GtEq => Ok(if a >= b { 1 } else { 0 }),
        BinaryOp::Lt => Ok(if a < b { 1 } else { 0 }),
        BinaryOp::LtEq => Ok(if a <= b { 1 } else { 0 }),
        BinaryOp::Assign => Ok(b),
    }
}

/// Runs programs. The variables outlive a run: a later program sees what an
/// earlier one assigned.
pub struct Evaluator {
    env: Environment,
    steps: u64,
}

impl Evaluator {
    /// The variables as they stand.
    pub closed spec fn env(&self) -> Env {
        self.env@
    }

    /// How many more times a loop body may run.
    pub closed spec fn budget(&self) -> nat {
        self.steps as nat
    }

    /// The machine state: variables and budget.
    pub open spec fn state(&self) -> Machine {
        Machine { env: self.env(), budget: self.budget() }
    }

    /// An evaluator without variables whose loops may run `u64::MAX` times in all.
    pub fn new() -> (evaluator: Evaluator)
        ensures
            evaluator.env() == Map::<Seq<char>, i32>::empty(),
            evaluator.budget() == u64::MAX,
    {
        Evaluator { env: Environment::new(), steps: u64::MAX }
    }

    /// An evaluator without variables whose loops may run `limit` times in all.
    pub fn with_step_limit(limit: u64) -> (evaluator: Evaluator)
        ensures
            evaluator.env() == Map::<Seq<char>, i32>::empty(),
            evaluator.budget() == limit,
    {
        Evaluator { env: Environment::new(), steps: limit }
    }

    /// Runs the program on the variables as they stand. The result is the
    /// value of the last statement, or the first error.
    pub fn eval(&mut self, program: &Program) -> (r: EvalResult)
        requires
            block_targets_ok(program@),
        ensures
            result_view(r) == exec_program(program@, old(self).state()).value,
            final(self).state() == exec_program(program@, old(self).state()).state,
            final(self).budget() <= old(self).budget(),
    {
        self.block(&program.body, 0)
    }

    fn block(&mut self, body: &Vec<Statement>, last: i32) -> (r: EvalResult)
        requires
            block_targets_ok(stmt_views(body@)),
        ensures
            result_view(r) == exec_block(stmt_views(body@), 0, old(self).state(), last).value,
            final(self).state() == exec_block(stmt_views(body@), 0, old(self).state(), last).state,
            final(self).budget() <= old(self).budget(),
        decreases old(self).budget(), body, 0int,
    {
        let ghost views = stmt_views(body@);
        let ghost start = self.state();
        let mut result = last;
        let mut i: usize = 0;
        while i < body.len()
            invariant
                i <= body.len(),
                views == stmt_views(body@),
                block_targets_ok(views),
                start == old(self).state(),
                self.budget() <= start.budget,
                exec_block(views, 0, start, last) == exec_block(
                    views,
                    i as int,
                    self.state(),
                    result,
                ),
            decreases body.len() - i,
        {
            assert(views[i as int] == body@[i as int]@);
            assert(stmt_targets_ok(views[i as int]));
            match self.stmt(&body[i]) {
                Ok(v) => {
                    result = v;
                },
                Err(e) => {
                    return Err(e);
                },
            }
            i += 1;
        }
        Ok(result)
    }

    fn stmt(&mut self, stmt: &Statement) -> (r: EvalResult)
        requires
            stmt_targets_ok(stmt@),
        ensures
            result_view(r) == exec_stmt(stmt@, old(self).state()).value,
            final(self).state() == exec_stmt(stmt@, old(self).state()).state,
            final(self).budget() <= old(self).budget(),
        decreases old(self).budget(), stmt, 0int,
    {
        match stmt {
            Statement::ExpressionStatement(e) => self.expr(e),
            Statement::BlockStatement(body) => self.block(body, 0),
            Statement::If(If { cond, then }) => {
                let v = match self.expr(cond) {
                    Ok(v) => v,
                    Err(e) => {
                        return Err(e);
                    },
                };
                if v > 0 {
                    self.block(then, 0)
                } else {
                    Ok(0)
                }
            },
            Statement::While(While { cond, body }) => self.run_loop(cond, &None, body, 0),
            Statement::For(For { init, cond, update, body }) => {
                let first = match init {
                    Some(e) => match self.expr(e) {
                        Ok(v) => v,
                        Err(e) => {
                            return Err(e);
                        },
                    },
                    None => 0,
                };
                match cond {
                    Some(c) => self.run_loop(c, update, body, first),
                    None => Ok(0),
                }
            },
        }
    }

    /// Runs a loop from the test of its condition on.
    fn run_loop(
        &mut self,
        cond: &Expression,
        update: &Option<Expression>,
        body: &Vec<Statement>,
        last: i32,
    ) -> (r: EvalResult)
        requires
            targets_ok(cond@),
            option_targets_ok(option_view(*update)),
            block_targets_ok(stmt_views(body@)),
        ensures
            result_view(r) == exec_loop(
                cond@,
                option_view(*update),
                stmt_views(body@),
                old(self).state(),
                last,
            ).value,
            final(self).state() == exec_loop(
                cond@,
                option_view(*update),
                stmt_views(body@),
                old(self).state(),
                last,
            ).state,
            final(self).budget() <= old(self).budget(),
        decreases old(self).budget(), body, 1int,
    {
        let ghost views = stmt_views(body@);
        let ghost step = option_view(*update);
        let ghost start = self.state();
        let mut result = last;
        loop
            invariant
                views == stmt_views(body@),
                step == option_view(*update),
                start == old(self).state(),
                targets_ok(cond@),
                option_targets_ok(step),
                block_targets_ok(views),
                self.budget() <= start.budget,
                exec_loop(cond@, step, views, start, last) == exec_loop(
                    cond@,
                    step,
                    views,
                    self.state(),
                    result,
                ),
            decreases self.budget(),
        {
            let v = match self.expr(cond) {
                Ok(v) => v,
                Err(e) => {
                    return Err(e);
                },
            };
            if v <= 0 {
                return Ok(result);
            }
            if self.steps == 0 {
                return Err(RuntimeError::StepLimitExceeded);
            }
            self.steps = self.steps - 1;
            match self.block(body, result) {
                Ok(v) => {
                    result = v;
                },
                Err(e) => {
                    return Err(e);
                },
            }
            match update {
                Some(u) => match self.expr(u) {
                    Ok(_) => {},
                    Err(e) => {
                        return Err(e);
                    },
                },
                None => {},
            }
        }
    }

    /// Binds the variable that `target` is to `v`.
    fn store(&mut self, target: &Expression, v: i32)
        ensures
            final(self).budget() == old(self).budget(),
            final(self).env() == match target@ {
                Expr::Var(name) => old(self).env().insert(name, v),
                _ => old(self).env(),
            },
    {
        match target {
            Expression::Var(name) => {
                self.env.bind(name, v);
            },
            _ => {},
        }
    }

    /// The value of an expression that is an operator other than `=` on two operands.
    fn binary(&mut self, expr: &Expression) -> (r: EvalResult)
        requires
            targets_ok(expr@),
            expr matches Expression::Binary { op, .. } && op != BinaryOp::Assign,
        ensures
            result_view(r) == eval_expr(expr@, old(self).env()).value,
            final(self).env() == eval_expr(expr@, old(self).env()).env,
            final(self).budget() == old(self).budget(),
        decreases expr, 0int,
    {
        match expr {
            Expression::Binary { lhs, op, rhs } => {
                let a = match self.expr(lhs) {
                    Ok(v) => v,
                    Err(e) => {
                        return Err(e);
                    },
                };
                let b = match self.expr(rhs) {
                    Ok(v) => v,
                    Err(e) => {
                        return Err(e);
                    },
                };
                apply(*op, a, b)
            },
            _ => Ok(0),
        }
    }

    fn expr(&mut self, expr: &Expression) -> (r: EvalResult)
        requires
            targets_ok(expr@),
        ensures
            result_view(r) == eval_expr(expr@, old(self).env()).value,
            final(self).env() == eval_expr(expr@, old(self).env()).env,
            final(self).budget() == old(self).budget(),
        decreases expr, 1int,
    {
        match expr {
            Expression::Value(n) => Ok(*n),
            Expression::Var(name) => match self.env.value_of(name) {
                Some(v) => Ok(v),
                None => Err(RuntimeError::UnboundVariable(name.clone())),
            },
            Expression::Unary { op, operand } => match self.expr(operand) {
                Ok(v) => Ok(0i32.wrapping_sub(v)),
                Err(e) => Err(e),
            },
            Expression::Binary { lhs, op, rhs } => match op {
                BinaryOp::Assign => match self.expr(rhs) {
                    Ok(v) => {
                        self.store(lhs, v);
                        Ok(v)
                    },
                    Err(e) => Err(e),
                },
                _ => self.binary(expr),
            },
        }
    }
}

} // verus!
