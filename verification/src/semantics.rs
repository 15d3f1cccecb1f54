//! What a program means: the value it computes, the variables it leaves
//! behind and the loop budget it uses up.

use crate::ast::BinaryOp;
use crate::ast::Expr;
use crate::ast::Stmt;
use vstd::prelude::*;

verus! {

/// Mathematical value of a runtime error.
pub enum RuntimeErrorView {
    DivisionByZero,
    UnboundVariable(Seq<char>),
    NegativeExponent,
    StepLimitExceeded,
}

/// The variables: a map from names to values.
pub type Env = Map<Seq<char>, i32>;

/// The 32-bit two's complement number that an integer wraps to.
pub open spec fn wrap32(x: int) -> i32 {
    let low = x % 0x1_0000_0000;
    if low >= 0x8000_0000 {
        (low - 0x1_0000_0000) as i32
    } else {
        low as i32
    }
}

/// Division that truncates towards zero.
pub open spec fn trunc_div(a: int, b: int) -> int
    recommends
        b != 0,
{
    if a >= 0 && b > 0 {
        a / b
    } else if a < 0 && b < 0 {
        (-a) / (-b)
    } else if a < 0 {
        -((-a) / b)
    } else {
        -(a / (-b))
    }
}

/// `base` multiplied `exp` times onto 1, wrapping at every step.
pub open spec fn pow32(base: i32, exp: nat) -> i32
    decreases exp,
{
    if exp == 0 {
        1
    } else {
        wrap32(pow32(base, (exp - 1) as nat) * base)
    }
}

/// 1 for true, 0 for false.
pub open spec fn truth(b: bool) -> i32 {
    if b {
        1
    } else {
        0
    }
}

/// The value of a binary operator other than `=` on two numbers.
pub open spec fn apply_binary(op: BinaryOp, a: i32, b: i32) -> Result<i32, RuntimeErrorView> {
    match op {
        BinaryOp::Plus => Ok(wrap32(a + b)),
        BinaryOp::Minus => Ok(wrap32(a - b)),
        BinaryOp::Mul => Ok(wrap32(a * b)),
        BinaryOp::Div => if b == 0 {
            Err(RuntimeErrorView::DivisionByZero)
        } else {
            Ok(wrap32(trunc_div(a as int, b as int)))
        },
        BinaryOp::Pow => if b < 0 {
            Err(RuntimeErrorView::NegativeExponent)
        } else {
            Ok(pow32(a, b as nat))
        },
        BinaryOp::Eq => Ok(truth(a == b)),
        BinaryOp::Neq => Ok(truth(a != b)),
        BinaryOp::Gt => Ok(truth(a > b)),
        BinaryOp::GtEq => Ok(truth(a >= b)),
        BinaryOp::Lt => Ok(truth(a < b)),
        BinaryOp::LtEq => Ok(truth(a <= b)),
        BinaryOp::Assign => Ok(b),
    }
}

/// What evaluating an expression gives: its value or the first error, and
/// the variables as they stand then.
pub struct Evaluated {
    pub value: Result<i32, RuntimeErrorView>,
    pub env: Env,
}

/// The value of an expression. Operands are evaluated left before right. An
/// assignment evaluates its right side, binds the variable on its left to
/// that value, and has that value.
pub open spec fn eval_expr(e: Expr, env: Env) -> Evaluated
    decreases e,
{
    match e {
        Expr::Value(n) => Evaluated { value: Ok(n), env },
        Expr::Var(name) => if env.contains_key(name) {
            Evaluated { value: Ok(env[name]), env }
        } else {
            Evaluated { value: Err(RuntimeErrorView::UnboundVariable(name)), env }
        },
        Expr::Unary { op, operand } => {
            let inner = eval_expr(*operand, env);
            match inner.value {
                Ok(v) => Evaluated { value: Ok(wrap32(-v)), env: inner.env },
                Err(_) => inner,
            }
        },
        Expr::Binary { lhs, op, rhs } => if op == BinaryOp::Assign {
            let right = eval_expr(*rhs, env);
            match (right.value, *lhs) {
                (Ok(v), Expr::Var(name)) => Evaluated {
                    value: Ok(v),
                    env: right.env.insert(name, v),
                },
                _ => right,
            }
        } else {
            let left = eval_expr(*lhs, env);
            match left.value {
                Ok(a) => {
                    let right = eval_expr(*rhs, left.env);
                    match right.value {
                        Ok(b) => Evaluated { value: apply_binary(op, a, b), env: right.env },
                        Err(_) => right,
                    }
                },
                Err(_) => left,
            }
        },
    }
}

/// The machine's state between statements.
pub struct Machine {
    /// The variables.
    pub env: Env,
    /// How many more times a loop body may run.
    pub budget: nat,
}

/// What running a statement gives: its value or the first error, and the
/// state as it stands then.
pub struct Executed {
    pub value: Result<i32, RuntimeErrorView>,
    pub state: Machine,
}

/// Running one statement.
///
/// - An expression statement has the expression's value.
/// - A block has the value of its last statement, 0 where it is empty.
/// - `if` runs its block where the condition is positive, and else has 0.
/// - `while` runs its block as long as the condition is positive. It has the
///   value of the last statement that ran, 0 where none ran.
/// - `for` evaluates its first clause once. Without a second clause it ends
///   there with 0. Otherwise it runs its block, then its third clause, as
///   long as the second is positive. It has the value of the last statement
///   that ran, that of the first clause where none ran, 0 where there is none.
///
/// Every run of a loop's block takes one unit of the budget; a loop that
/// wants to go on with none left ends in `StepLimitExceeded`.
pub open spec fn exec_stmt(s: Stmt, m: Machine) -> Executed
    decreases m.budget, s, 0int,
{
    match s {
        Stmt::Expression(e) => after_expr(eval_expr(e, m.env), m.budget),
        Stmt::Block(body) => exec_block(body, 0, m, 0),
        Stmt::If { cond, then } => {
            let c = eval_expr(cond, m.env);
            match c.value {
                Ok(v) => if v > 0 {
                    exec_block(then, 0, Machine { env: c.env, budget: m.budget }, 0)
                } else {
                    Executed { value: Ok(0), state: Machine { env: c.env, budget: m.budget } }
                },
                Err(_) => after_expr(c, m.budget),
            }
        },
        Stmt::While { cond, body } => exec_loop(cond, None, body, m, 0),
        Stmt::For { init, cond, update, body } => {
            let first = match init {
                Some(e) => eval_expr(e, m.env),
                None => Evaluated { value: Ok(0), env: m.env },
            };
            match (first.value, cond) {
                (Ok(v), Some(c)) => exec_loop(
                    c,
                    update,
                    body,
                    Machine { env: first.env, budget: m.budget },
                    v,
                ),
                (Ok(v), None) => Executed {
                    value: Ok(0),
                    state: Machine { env: first.env, budget: m.budget },
                },
                (Err(_), _) => after_expr(first, m.budget),
            }
        },
    }
}

/// The outcome of a statement that is one expression.
pub open spec fn after_expr(e: Evaluated, budget: nat) -> Executed {
    Executed { value: e.value, state: Machine { env: e.env, budget } }
}

/// Running the statements `body[from..]` in order. `last` is the value so
/// far, which stands where no statement is left.
/// (No statement adds to the budget; the test for it serves to show that
/// the definition comes to an end.)
pub open spec fn exec_block(body: Seq<Stmt>, from: int, m: Machine, last: i32) -> Executed
    decreases m.budget, body, body.len() - from,
{
    if !(0 <= from < body.len()) {
        Executed { value: Ok(last), state: m }
    } else {
        let first = exec_stmt(body[from], m);
        match first.value {
            Ok(v) => if first.state.budget <= m.budget {
                exec_block(body, from + 1, first.state, v)
            } else {
                first
            },
            Err(_) => first,
        }
    }
}

/// Running a loop from the test of its condition on. `last` is the value so far.
/// (A run of the block leaves less budget than there was; the test for it
/// serves to show that the definition comes to an end.)
pub open spec fn exec_loop(cond: Expr, update: Option<Expr>, body: Seq<Stmt>, m: Machine, last: i32)
    -> Executed
    decreases m.budget, body, body.len() + 1,
{
    let c = eval_expr(cond, m.env);
    match c.value {
        Ok(v) => if v <= 0 {
            Executed { value: Ok(last), state: Machine { env: c.env, budget: m.budget } }
        } else if m.budget == 0 {
            Executed {
                value: Err(RuntimeErrorView::StepLimitExceeded),
                state: Machine { env: c.env, budget: m.budget },
            }
        } else {
            let ran = exec_block(
                body,
                0,
                Machine { env: c.env, budget: (m.budget - 1) as nat },
                last,
            );
            match ran.value {
                Ok(r) => {
                    let stepped = match update {
                        Some(u) => eval_expr(u, ran.state.env),
                        None => Evaluated { value: Ok(0), env: ran.state.env },
                    };
                    match stepped.value {
                        Ok(_) => if ran.state.budget < m.budget {
                            exec_loop(
                                cond,
                                update,
                                body,
                                Machine { env: stepped.env, budget: ran.state.budget },
                                r,
                            )
                        } else {
                            ran
                        },
                        Err(_) => after_expr(stepped, ran.state.budget),
                    }
                },
                Err(_) => ran,
            }
        },
        Err(_) => after_expr(c, m.budget),
    }
}

/// Running a whole program: its statements in order. The value is that of
/// the last one.
pub open spec fn exec_program(program: Seq<Stmt>, m: Machine) -> Executed {
    exec_block(program, 0, m, 0)
}

} // verus!
