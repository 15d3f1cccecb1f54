//! The operand stack in generated code: an expression leaves one value
//! pushed, a statement leaves the stack as it found it.

use crate::assembly::Instr;
use crate::assembly::Place;
use crate::ast::BinaryOp;
use crate::ast::Expr;
use crate::ast::Stmt;
use crate::codegen::address;
use crate::codegen::arithmetic;
use crate::codegen::comparison;
use crate::codegen::emit;
use crate::codegen::label_at;
use crate::codegen::lower_expr;
use crate::codegen::lower_loop;
use crate::codegen::lower_operator;
use crate::codegen::lower_pow;
use crate::codegen::lower_program;
use crate::codegen::lower_stmt;
use crate::codegen::lower_stmts;
use crate::codegen::lower_test;
use crate::codegen::next_site;
use crate::codegen::with_var;
use crate::codegen::Gen;
use crate::labels::added;
use crate::labels::follows;
use vstd::prelude::*;

verus! {

/// By how many values an instruction makes the operand stack grow.
pub open spec fn growth(i: Instr) -> int {
    match i {
        Instr::Push => 1,
        Instr::Pop0 => -1,
        Instr::Pop1 => -1,
        _ => 0,
    }
}

/// How many more values a run of instructions pushes than it pops.
pub open spec fn net_pushes(code: Seq<Instr>) -> int
    decreases code.len(),
{
    if code.len() == 0 {
        0
    } else {
        net_pushes(code.drop_last()) + growth(code.last())
    }
}

proof fn lemma_net_push(code: Seq<Instr>, i: Instr)
    ensures
        net_pushes(code.push(i)) == net_pushes(code) + growth(i),
{
    assert(code.push(i).drop_last() == code);
}

proof fn lemma_net_concat(a: Seq<Instr>, b: Seq<Instr>)
    ensures
        net_pushes(a + b) == net_pushes(a) + net_pushes(b),
    decreases b.len(),
{
    if b.len() == 0 {
        assert(a + b == a);
    } else {
        lemma_net_concat(a, b.drop_last());
        assert((a + b).drop_last() == a + b.drop_last());
        assert((a + b).last() == b.last());
    }
}

proof fn lemma_begin(g: Gen)
    ensures
        follows(g, g),
        net_pushes(added(g, g)) == 0,
{
    assert(g.code.subrange(0, g.code.len() as int) == g.code);
}

/// One more instruction changes the count by that instruction's growth.
proof fn lemma_step(g0: Gen, h: Gen, i: Instr)
    requires
        follows(g0, h),
    ensures
        follows(g0, emit(h, i)),
        net_pushes(added(g0, emit(h, i))) == net_pushes(added(g0, h)) + growth(i),
{
    let k = emit(h, i);
    assert(added(g0, k) == added(g0, h).push(i));
    assert(k.code.subrange(0, g0.code.len() as int) == h.code.subrange(0, g0.code.len() as int));
    lemma_net_push(added(g0, h), i);
}

/// Code that goes after the code so far adds its own count.
proof fn lemma_join(g0: Gen, h: Gen, k: Gen)
    requires
        follows(g0, h),
        follows(h, k),
    ensures
        follows(g0, k),
        net_pushes(added(g0, k)) == net_pushes(added(g0, h)) + net_pushes(added(h, k)),
{
    assert(added(g0, k) == added(g0, h) + added(h, k));
    assert(k.code.subrange(0, g0.code.len() as int) =~= g0.code) by {
        assert forall|x: int| 0 <= x < g0.code.len() implies k.code[x] == g0.code[x] by {
            assert(k.code.subrange(0, h.code.len() as int)[x] == h.code[x]);
            assert(h.code.subrange(0, g0.code.len() as int)[x] == g0.code[x]);
        }
    }
    lemma_net_concat(added(g0, h), added(h, k));
}

proof fn lemma_address_stack(g: Gen, name: Seq<char>)
    ensures
        follows(g, address(g, name)),
        net_pushes(added(g, address(g, name))) == 0,
{
    lemma_begin(g);
    let h1 = with_var(g, name);
    assert(added(g, h1) == added(g, g));
    let slot = Instr::Slot((crate::codegen::var_index(g.vars, name, 0) + 1) as usize);
    lemma_step(g, h1, slot);
    lemma_step(g, emit(h1, slot), Instr::Addr);
}

proof fn lemma_pow_stack(g: Gen)
    ensures
        follows(g, lower_pow(g)),
        net_pushes(added(g, lower_pow(g))) == 0,
{
    lemma_begin(g);
    lemma_step(g, g, Instr::PowInit);
    let h1 = emit(g, Instr::PowInit);
    let h2 = next_site(h1);
    assert(added(g, h2) == added(g, h1));
    let end = label_at(h2, Place::PowEnd);
    let again = label_at(h2, Place::Pow);
    lemma_step(g, h2, Instr::JumpIfZero(end));
    let h3 = emit(h2, Instr::JumpIfZero(end));
    lemma_step(g, h3, Instr::Mark(again));
    let h4 = emit(h3, Instr::Mark(again));
    lemma_step(g, h4, Instr::PowMul);
    let h5 = emit(h4, Instr::PowMul);
    lemma_step(g, h5, Instr::PowCount);
    let h6 = emit(h5, Instr::PowCount);
    lemma_step(g, h6, Instr::JumpNe(again));
    let h7 = emit(h6, Instr::JumpNe(again));
    lemma_step(g, h7, Instr::Mark(end));
    let h8 = emit(h7, Instr::Mark(end));
    lemma_step(g, h8, Instr::PowResult);
}

/// An operator pops its two operands and pushes its result.
proof fn lemma_operator_stack(op: BinaryOp, g: Gen)
    ensures
        follows(g, lower_operator(op, g)),
        net_pushes(added(g, lower_operator(op, g))) == -1,
{
    lemma_begin(g);
    lemma_step(g, g, Instr::Pop1);
    let h1 = emit(g, Instr::Pop1);
    lemma_step(g, h1, Instr::Pop0);
    let h2 = emit(h1, Instr::Pop0);
    match arithmetic(op) {
        Some(i) => {
            lemma_step(g, h2, i);
            lemma_step(g, emit(h2, i), Instr::Push);
        },
        None => match comparison(op) {
            Some(c) => {
                lemma_step(g, h2, Instr::Cmp);
                let h3 = emit(h2, Instr::Cmp);
                lemma_step(g, h3, Instr::SetIf(c));
                lemma_step(g, emit(h3, Instr::SetIf(c)), Instr::Push);
            },
            None => {
                lemma_pow_stack(h2);
                let h3 = lower_pow(h2);
                lemma_join(g, h2, h3);
                lemma_step(g, h3, Instr::Push);
            },
        },
    }
}

/// The code of an expression pushes one value more than it pops.
pub proof fn lemma_expr_stack(e: Expr, g: Gen)
    ensures
        follows(g, lower_expr(e, g)),
        net_pushes(added(g, lower_expr(e, g))) == 1,
    decreases e,
{
    lemma_begin(g);
    match e {
        Expr::Value(n) => {
            lemma_step(g, g, Instr::Imm(n));
            lemma_step(g, emit(g, Instr::Imm(n)), Instr::Push);
        },
        Expr::Var(name) => {
            lemma_address_stack(g, name);
            let h1 = address(g, name);
            lemma_step(g, h1, Instr::LoadSlot);
            lemma_step(g, emit(h1, Instr::LoadSlot), Instr::Push);
        },
        Expr::Unary { op, operand } => {
            lemma_expr_stack(*operand, g);
            let h1 = lower_expr(*operand, g);
            lemma_step(g, h1, Instr::Pop0);
            let h2 = emit(h1, Instr::Pop0);
            lemma_step(g, h2, Instr::Neg);
            lemma_step(g, emit(h2, Instr::Neg), Instr::Push);
        },
        Expr::Binary { lhs, op, rhs } => {
            if op == BinaryOp::Assign {
                lemma_expr_stack(*rhs, g);
                let h1 = lower_expr(*rhs, g);
                match *lhs {
                    Expr::Var(name) => {
                        lemma_step(g, h1, Instr::Peek);
                        let h2 = emit(h1, Instr::Peek);
                        lemma_address_stack(h2, name);
                        lemma_join(g, h2, address(h2, name));
                        lemma_step(g, address(h2, name), Instr::StoreSlot);
                    },
                    _ => {},
                }
            } else {
                let h1 = lower_expr(*lhs, g);
                let h2 = lower_expr(*rhs, h1);
                let h3 = lower_operator(op, h2);
                lemma_expr_stack(*lhs, g);
                lemma_expr_stack(*rhs, h1);
                lemma_join(g, h1, h2);
                lemma_operator_stack(op, h2);
                lemma_join(g, h2, h3);
            }
        },
    }
}

proof fn lemma_test_stack(cond: Expr, g: Gen, exit: crate::assembly::Label)
    ensures
        follows(g, lower_test(cond, g, exit)),
        net_pushes(added(g, lower_test(cond, g, exit))) == 0,
{
    lemma_expr_stack(cond, g);
    let h1 = lower_expr(cond, g);
    lemma_step(g, h1, Instr::Pop0);
    let h2 = emit(h1, Instr::Pop0);
    lemma_step(g, h2, Instr::CmpZero);
    lemma_step(g, emit(h2, Instr::CmpZero), Instr::JumpEq(exit));
}

/// The code of a statement pops as many values as it pushes.
pub proof fn lemma_stmt_stack(s: Stmt, g: Gen)
    ensures
        follows(g, lower_stmt(s, g)),
        net_pushes(added(g, lower_stmt(s, g))) == 0,
    decreases s, 0int,
{
    lemma_begin(g);
    match s {
        Stmt::Expression(e) => {
            lemma_expr_stack(e, g);
            lemma_step(g, lower_expr(e, g), Instr::Pop0);
        },
        Stmt::Block(body) => {
            lemma_step(g, g, Instr::Imm(0));
            let h1 = emit(g, Instr::Imm(0));
            lemma_stmts_stack(body, 0, false, h1);
            lemma_join(g, h1, lower_stmts(body, 0, false, h1));
        },
        Stmt::If { cond, then } => {
            lemma_step(g, g, Instr::Imm(0));
            let h1 = emit(g, Instr::Imm(0));
            let h2 = next_site(h1);
            assert(added(g, h2) == added(g, h1));
            let otherwise = label_at(h2, Place::Else);
            let end = label_at(h2, Place::End);
            let h3 = lower_test(cond, h2, otherwise);
            let h4 = lower_stmts(then, 0, false, h3);
            lemma_test_stack(cond, h2, otherwise);
            lemma_join(g, h2, h3);
            lemma_stmts_stack(then, 0, false, h3);
            lemma_join(g, h3, h4);
            lemma_step(g, h4, Instr::Jump(end));
            let h5 = emit(h4, Instr::Jump(end));
            lemma_step(g, h5, Instr::Mark(otherwise));
            let h6 = emit(h5, Instr::Mark(otherwise));
            lemma_step(g, h6, Instr::Imm(0));
            let h7 = emit(h6, Instr::Imm(0));
            lemma_step(g, h7, Instr::Mark(end));
        },
        Stmt::While { cond, body } => {
            lemma_step(g, g, Instr::Imm(0));
            let h1 = emit(g, Instr::Imm(0));
            lemma_step(g, h1, Instr::Push);
            let h2 = emit(h1, Instr::Push);
            lemma_loop_stack(cond, None, body, h2);
            lemma_join(g, h2, lower_loop(cond, None, body, h2));
        },
        Stmt::For { init, cond, update, body } => {
            let h1 = match init {
                Some(e) => lower_expr(e, g),
                None => emit(emit(g, Instr::Imm(0)), Instr::Push),
            };
            match init {
                Some(e) => {
                    lemma_expr_stack(e, g);
                },
                None => {
                    lemma_step(g, g, Instr::Imm(0));
                    lemma_step(g, emit(g, Instr::Imm(0)), Instr::Push);
                },
            }
            match cond {
                Some(c) => {
                    lemma_loop_stack(c, update, body, h1);
                    lemma_join(g, h1, lower_loop(c, update, body, h1));
                },
                None => {
                    lemma_step(g, h1, Instr::Pop0);
                    lemma_step(g, emit(h1, Instr::Pop0), Instr::Imm(0));
                },
            }
        },
    }
}

/// The code of a loop pops the one value that stands for the loop's value
/// so far, and else as many values as it pushes.
pub proof fn lemma_loop_stack(cond: Expr, update: Option<Expr>, body: Seq<Stmt>, g: Gen)
    ensures
        follows(g, lower_loop(cond, update, body, g)),
        net_pushes(added(g, lower_loop(cond, update, body, g))) == -1,
    decreases body, body.len() + 1,
{
    lemma_begin(g);
    let h1 = next_site(g);
    assert(added(g, h1) == added(g, g));
    let begin = label_at(h1, Place::Begin);
    let done = label_at(h1, Place::Done);
    lemma_step(g, h1, Instr::Mark(begin));
    let h2 = emit(h1, Instr::Mark(begin));
    let h3 = lower_test(cond, h2, done);
    lemma_test_stack(cond, h2, done);
    lemma_join(g, h2, h3);
    let h4 = lower_stmts(body, 0, true, h3);
    lemma_stmts_stack(body, 0, true, h3);
    lemma_join(g, h3, h4);
    let h5 = match update {
        Some(u) => emit(lower_expr(u, h4), Instr::Pop1),
        None => h4,
    };
    match update {
        Some(u) => {
            lemma_expr_stack(u, h4);
            lemma_join(g, h4, lower_expr(u, h4));
            lemma_step(g, lower_expr(u, h4), Instr::Pop1);
        },
        None => {},
    }
    lemma_step(g, h5, Instr::Jump(begin));
    let h6 = emit(h5, Instr::Jump(begin));
    lemma_step(g, h6, Instr::Mark(done));
    let h7 = emit(h6, Instr::Mark(done));
    lemma_step(g, h7, Instr::Pop0);
}

/// The code of statements in order pops as many values as it pushes.
pub proof fn lemma_stmts_stack(body: Seq<Stmt>, from: int, keep: bool, g: Gen)
    ensures
        follows(g, lower_stmts(body, from, keep, g)),
        net_pushes(added(g, lower_stmts(body, from, keep, g))) == 0,
    decreases body, body.len() - from,
{
    lemma_begin(g);
    if 0 <= from < body.len() {
        let h1 = lower_stmt(body[from], g);
        let h2 = if keep {
            emit(h1, Instr::Keep)
        } else {
            h1
        };
        lemma_stmt_stack(body[from], g);
        if keep {
            lemma_step(g, h1, Instr::Keep);
        }
        lemma_stmts_stack(body, from + 1, keep, h2);
        lemma_join(g, h2, lower_stmts(body, from + 1, keep, h2));
    }
}

/// The code of a program pops as many values as it pushes.
pub proof fn lemma_program_stack(program: Seq<Stmt>)
    ensures
        net_pushes(lower_program(program).code) == 0,
{
    let g0 = Gen { code: Seq::empty(), vars: Seq::empty(), sites: 0 };
    let g1 = emit(g0, Instr::Imm(0));
    let h = lower_program(program);
    lemma_begin(g0);
    lemma_step(g0, g0, Instr::Imm(0));
    lemma_stmts_stack(program, 0, false, g1);
    lemma_join(g0, g1, h);
    assert(added(g0, h) == h.code);
}

} // verus!
