//! The code generator: lowers the tree to stack-machine assembly.

use crate::assembly::assembly_text;
use crate::assembly::print;
use crate::assembly::Cond;
use crate::assembly::Instr;
use crate::assembly::Label;
use crate::assembly::Place;
use crate::ast::option_view;
use crate::ast::stmt_views;
use crate::ast::BinaryOp;
use crate::ast::Expr;
use crate::ast::Expression;
use crate::ast::For;
use crate::ast::If;
use crate::ast::Program;
use crate::ast::Statement;
use crate::ast::Stmt;
use crate::ast::While;
use crate::labels::lemma_program_labels;
use crate::labels::marks_distinct;
use crate::labels::targets_marked;
use vstd::prelude::*;

verus! {

/// What has been generated so far.
pub struct Gen {
    /// The instructions, in order.
    pub code: Seq<Instr>,
    /// The variables met so far; a variable's slot is its place in this list.
    pub vars: Seq<Seq<char>>,
    /// How many pieces of control flow have got their number.
    pub sites: nat,
}

/// The names of the variables that a generator has met, in order.
pub open spec fn names(vars: Seq<String>) -> Seq<Seq<char>> {
    Seq::new(vars.len(), |i: int| vars[i]@)
}

/// Index of the first variable at or after `from` with the given name, or
/// the number of variables where there is none.
pub open spec fn var_index(vars: Seq<Seq<char>>, name: Seq<char>, from: int) -> int
    decreases vars.len() - from,
{
    if !(0 <= from < vars.len()) {
        vars.len() as int
    } else if vars[from] == name {
        from
    } else {
        var_index(vars, name, from + 1)
    }
}

/// Appends one instruction.
pub open spec fn emit(g: Gen, i: Instr) -> Gen {
    Gen { code: g.code.push(i), vars: g.vars, sites: g.sites }
}

/// Gives the next piece of control flow its number.
pub open spec fn next_site(g: Gen) -> Gen {
    Gen { code: g.code, vars: g.vars, sites: g.sites + 1 }
}

/// A label of the piece of control flow that got its number last.
pub open spec fn label_at(g: Gen, place: Place) -> Label {
    Label { place, site: (g.sites - 1) as usize }
}

/// Makes sure the variable has a slot: a new one, after all others, where
/// it has none yet.
pub open spec fn with_var(g: Gen, name: Seq<char>) -> Gen {
    if var_index(g.vars, name, 0) == g.vars.len() {
        Gen { code: g.code, vars: g.vars.push(name), sites: g.sites }
    } else {
        g
    }
}

/// Puts the address of the variable's slot in `x9`.
pub open spec fn address(g: Gen, name: Seq<char>) -> Gen {
    let g1 = with_var(g, name);
    let slot = var_index(g.vars, name, 0) + 1;
    emit(emit(g1, Instr::Slot(slot as usize)), Instr::Addr)
}

/// The instruction that computes an arithmetic operator from `x0` and `x1`.
pub open spec fn arithmetic(op: BinaryOp) -> Option<Instr> {
    match op {
        BinaryOp::Plus => Some(Instr::Add),
        BinaryOp::Minus => Some(Instr::Sub),
        BinaryOp::Mul => Some(Instr::Mul),
        BinaryOp::Div => Some(Instr::Sdiv),
        _ => None,
    }
}

/// The condition that a comparison operator tests.
pub open spec fn comparison(op: BinaryOp) -> Option<Cond> {
    match op {
        BinaryOp::Eq => Some(Cond::Eq),
        BinaryOp::Neq => Some(Cond::Ne),
        BinaryOp::Gt => Some(Cond::Gt),
        BinaryOp::GtEq => Some(Cond::Ge),
        BinaryOp::Lt => Some(Cond::Lt),
        BinaryOp::LtEq => Some(Cond::Le),
        _ => None,
    }
}

/// The multiplication loop of a `^`: base in `x0`, count in `x1`, product
/// in `x2`. A count of zero skips the loop.
pub open spec fn lower_pow(g: Gen) -> Gen {
    let g = next_site(emit(g, Instr::PowInit));
    let g = emit(g, Instr::JumpIfZero(label_at(g, Place::PowEnd)));
    let g = emit(g, Instr::Mark(label_at(g, Place::Pow)));
    let g = emit(g, Instr::PowMul);
    let g = emit(g, Instr::PowCount);
    let g = emit(g, Instr::JumpNe(label_at(g, Place::Pow)));
    let g = emit(g, Instr::Mark(label_at(g, Place::PowEnd)));
    emit(g, Instr::PowResult)
}

/// What follows the two operands of a binary operator other than `=`: both
/// are popped, the operator is computed, the result is pushed.
pub open spec fn lower_operator(op: BinaryOp, g: Gen) -> Gen {
    let g = emit(emit(g, Instr::Pop1), Instr::Pop0);
    let g = match arithmetic(op) {
        Some(i) => emit(g, i),
        None => match comparison(op) {
            Some(c) => emit(emit(g, Instr::Cmp), Instr::SetIf(c)),
            None => lower_pow(g),
        },
    };
    emit(g, Instr::Push)
}

/// The code of an expression, which leaves the expression's value pushed.
pub open spec fn lower_expr(e: Expr, g: Gen) -> Gen
    decreases e,
{
    match e {
        Expr::Value(n) => emit(emit(g, Instr::Imm(n)), Instr::Push),
        Expr::Var(name) => emit(emit(address(g, name), Instr::LoadSlot), Instr::Push),
        Expr::Unary { op, operand } => emit(
            emit(emit(lower_expr(*operand, g), Instr::Pop0), Instr::Neg),
            Instr::Push,
        ),
        Expr::Binary { lhs, op, rhs } => if op == BinaryOp::Assign {
            let g = lower_expr(*rhs, g);
            match *lhs {
                Expr::Var(name) => emit(address(emit(g, Instr::Peek), name), Instr::StoreSlot),
                _ => g,
            }
        } else {
            lower_operator(op, lower_expr(*rhs, lower_expr(*lhs, g)))
        },
    }
}

/// The test at the head of a loop or an `if`: the condition's value is
/// popped, and where it is zero control goes to `exit`. (The evaluator goes
/// on where the value is positive: the two differ on negative values.)
pub open spec fn lower_test(cond: Expr, g: Gen, exit: Label) -> Gen {
    emit(emit(emit(lower_expr(cond, g), Instr::Pop0), Instr::CmpZero), Instr::JumpEq(exit))
}

/// The code of a statement, which leaves the statement's value in `x0`.
pub open spec fn lower_stmt(s: Stmt, g: Gen) -> Gen
    decreases s, 0int,
{
    match s {
        Stmt::Expression(e) => emit(lower_expr(e, g), Instr::Pop0),
        Stmt::Block(body) => lower_stmts(body, 0, false, emit(g, Instr::Imm(0))),
        Stmt::If { cond, then } => {
            let g = next_site(emit(g, Instr::Imm(0)));
            let otherwise = label_at(g, Place::Else);
            let end = label_at(g, Place::End);
            let g = lower_test(cond, g, otherwise);
            let g = lower_stmts(then, 0, false, g);
            let g = emit(g, Instr::Jump(end));
            let g = emit(g, Instr::Mark(otherwise));
            let g = emit(g, Instr::Imm(0));
            emit(g, Instr::Mark(end))
        },
        Stmt::While { cond, body } => {
            let g = emit(emit(g, Instr::Imm(0)), Instr::Push);
            lower_loop(cond, None, body, g)
        },
        Stmt::For { init, cond, update, body } => {
            let g = match init {
                Some(e) => lower_expr(e, g),
                None => emit(emit(g, Instr::Imm(0)), Instr::Push),
            };
            match cond {
                Some(c) => lower_loop(c, update, body, g),
                None => emit(emit(g, Instr::Pop0), Instr::Imm(0)),
            }
        },
    }
}

/// The code of a loop whose value so far is on top of the stack: the test,
/// the body, the update, the branch back, and at the end the value popped
/// into `x0`.
pub open spec fn lower_loop(cond: Expr, update: Option<Expr>, body: Seq<Stmt>, g: Gen) -> Gen
    decreases body, body.len() + 1,
{
    let g = next_site(g);
    let begin = label_at(g, Place::Begin);
    let done = label_at(g, Place::Done);
    let g = emit(g, Instr::Mark(begin));
    let g = lower_test(cond, g, done);
    let g = lower_stmts(body, 0, true, g);
    let g = match update {
        Some(u) => emit(lower_expr(u, g), Instr::Pop1),
        None => g,
    };
    let g = emit(g, Instr::Jump(begin));
    let g = emit(g, Instr::Mark(done));
    emit(g, Instr::Pop0)
}

/// The code of the statements `body[from..]`, in order. In a loop every
/// statement's value is kept as the loop's value so far.
pub open spec fn lower_stmts(body: Seq<Stmt>, from: int, keep: bool, g: Gen) -> Gen
    decreases body, body.len() - from,
{
    if !(0 <= from < body.len()) {
        g
    } else {
        let g = lower_stmt(body[from], g);
        let g = if keep {
            emit(g, Instr::Keep)
        } else {
            g
        };
        lower_stmts(body, from + 1, keep, g)
    }
}

/// The code of the statements of a program.
pub open spec fn lower_program(program: Seq<Stmt>) -> Gen {
    lower_stmts(
        program,
        0,
        false,
        emit(Gen { code: Seq::empty(), vars: Seq::empty(), sites: 0 }, Instr::Imm(0)),
    )
}

/// What stands before the code of a program: the entry point, and a frame
/// with one slot for each variable.
pub open spec fn prologue(slots: usize) -> Seq<Instr> {
    seq![
        Instr::Global,
        Instr::Entry,
        Instr::FrameSave,
        Instr::FrameSet,
        Instr::Count(slots),
        Instr::Reserve,
    ]
}

/// What stands after the code of a program: the frame is dropped and the
/// value in `x0` is returned.
pub open spec fn epilogue() -> Seq<Instr> {
    seq![Instr::FrameRestore, Instr::FramePop, Instr::Ret]
}

/// The whole of the instructions for a program.
pub open spec fn program_code(program: Seq<Stmt>) -> Seq<Instr> {
    let g = lower_program(program);
    prologue(g.vars.len() as usize) + g.code + epilogue()
}

/// Generates the assembly of programs.
pub struct CodeGenerator {
    output: Vec<Instr>,
    vars: Vec<String>,
    sites: usize,
}

impl CodeGenerator {
    /// What has been generated so far.
    pub closed spec fn gen(&self) -> Gen {
        Gen { code: self.output@, vars: names(self.vars@), sites: self.sites as nat }
    }

    /// Every piece of control flow that has its number has emitted an
    /// instruction since.
    pub closed spec fn wf(&self) -> bool {
        self.sites <= self.output.len()
    }

    /// A generator that has generated nothing yet.
    pub fn new() -> (generator: CodeGenerator)
        ensures
            generator.wf(),
            generator.gen() == (Gen { code: Seq::empty(), vars: Seq::empty(), sites: 0 }),
    {
        let generator = CodeGenerator { output: Vec::new(), vars: Vec::new(), sites: 0 };
        assert(names(generator.vars@) == Seq::<Seq<char>>::empty());
        generator
    }

    /// The assembly for a program. What was generated before is dropped.
    /// In the code every label is defined once, and every branch goes to a
    /// label that the code defines.
    pub fn generate(&mut self, program: &Program) -> (text: String)
        ensures
            text@ == assembly_text(program_code(program@)),
            marks_distinct(program_code(program@)),
            targets_marked(program_code(program@)),
            final(self).wf(),
            final(self).gen() == lower_program(program@),
    {
        self.output = Vec::new();
        self.vars = Vec::new();
        self.sites = 0;
        assert(names(self.vars@) == Seq::<Seq<char>>::empty());
        self.push(Instr::Imm(0));
        self.stmts(&program.body, false);
        proof {
            lemma_program_labels(program@);
        }
        let mut all: Vec<Instr> = Vec::new();
        all.push(Instr::Global);
        all.push(Instr::Entry);
        all.push(Instr::FrameSave);
        all.push(Instr::FrameSet);
        all.push(Instr::Count(self.vars.len()));
        all.push(Instr::Reserve);
        assert(all@ == prologue(self.vars.len()));
        let mut i: usize = 0;
        while i < self.output.len()
            invariant
                i <= self.output.len(),
                all@ == prologue(self.vars.len()) + self.output@.take(i as int),
            decreases self.output.len() - i,
        {
            all.push(self.output[i]);
            assert(self.output@.take(i + 1) == self.output@.take(i as int).push(
                self.output@[i as int],
            ));
            i += 1;
        }
        assert(self.output@.take(i as int) == self.output@);
        all.push(Instr::FrameRestore);
        all.push(Instr::FramePop);
        all.push(Instr::Ret);
        assert(all@ == prologue(self.vars.len()) + self.output@ + epilogue());
        print(&all)
    }

    fn push(&mut self, i: Instr)
        requires
            old(self).wf(),
        ensures
            final(self).wf(),
            final(self).gen() == emit(old(self).gen(), i),
            final(self).gen().sites < final(self).gen().code.len(),
    {
        self.output.push(i);
    }

    /// Gives the next piece of control flow its number.
    fn site(&mut self)
        requires
            old(self).wf(),
            old(self).gen().sites < old(self).gen().code.len(),
        ensures
            final(self).wf(),
            final(self).gen() == next_site(old(self).gen()),
    {
        self.sites = self.sites + 1;
    }

    fn label(&self, place: Place) -> (l: Label)
        requires
            self.gen().sites >= 1,
        ensures
            l == label_at(self.gen(), place),
    {
        Label { place, site: self.sites - 1 }
    }

    /// Puts the address of the variable's slot in `x9`.
    fn address(&mut self, name: &String)
        requires
            old(self).wf(),
        ensures
            final(self).wf(),
            final(self).gen() == address(old(self).gen(), name@),
            final(self).gen().sites >= old(self).gen().sites,
    {
        let ghost vars = names(self.vars@);
        let mut at: usize = 0;
        while at < self.vars.len()
            invariant
                at <= self.vars.len(),
                vars == names(self.vars@),
                var_index(vars, name@, 0) == var_index(vars, name@, at as int),
            ensures
                at <= self.vars.len(),
                at == var_index(vars, name@, 0),
            decreases self.vars.len() - at,
        {
            assert(vars[at as int] == self.vars@[at as int]@);
            if self.vars[at] == *name {
                break ;
            }
            at += 1;
        }
        if at == self.vars.len() {
            let owned = name.clone();
            self.vars.push(owned);
            assert(names(self.vars@) == vars.push(name@));
        }
        assert(at < self.vars.len());
        self.push(Instr::Slot(at + 1));
        self.push(Instr::Addr);
    }

    fn pow(&mut self)
        requires
            old(self).wf(),
        ensures
            final(self).wf(),
            final(self).gen() == lower_pow(old(self).gen()),
            final(self).gen().sites >= old(self).gen().sites,
    {
        self.push(Instr::PowInit);
        self.site();
        let end = self.label(Place::PowEnd);
        let again = self.label(Place::Pow);
        self.push(Instr::JumpIfZero(end));
        self.push(Instr::Mark(again));
        self.push(Instr::PowMul);
        self.push(Instr::PowCount);
        self.push(Instr::JumpNe(again));
        self.push(Instr::Mark(end));
        self.push(Instr::PowResult);
    }

    fn operator(&mut self, op: BinaryOp)
        requires
            old(self).wf(),
        ensures
            final(self).wf(),
            final(self).gen() == lower_operator(op, old(self).gen()),
            final(self).gen().sites >= old(self).gen().sites,
    {
        self.push(Instr::Pop1);
        self.push(Instr::Pop0);
        match op {
            BinaryOp::Plus => self.push(Instr::Add),
            BinaryOp::Minus => self.push(Instr::Sub),
            BinaryOp::Mul => self.push(Instr::Mul),
            BinaryOp::Div => self.push(Instr::Sdiv),
            BinaryOp::Eq => self.compare(Cond::Eq),
            BinaryOp::Neq => self.compare(Cond::Ne),
            BinaryOp::Gt => self.compare(Cond::Gt),
            BinaryOp::GtEq => self.compare(Cond::Ge),
            BinaryOp::Lt => self.compare(Cond::Lt),
            BinaryOp::LtEq => self.compare(Cond::Le),
            BinaryOp::Pow => self.pow(),
            BinaryOp::Assign => self.pow(),
        }
        self.push(Instr::Push);
    }

    fn compare(&mut self, c: Cond)
        requires
            old(self).wf(),
        ensures
            final(self).wf(),
            final(self).gen() == emit(emit(old(self).gen(), Instr::Cmp), Instr::SetIf(c)),
    {
        self.push(Instr::Cmp);
        self.push(Instr::SetIf(c));
    }

    fn expr(&mut self, expr: &Expression)
        requires
            old(self).wf(),
        ensures
            final(self).wf(),
            final(self).gen() == lower_expr(expr@, old(self).gen()),
            final(self).gen().sites >= old(self).gen().sites,
            final(self).gen().sites < final(self).gen().code.len(),
        decreases expr,
    {
        match expr {
            Expression::Value(n) => {
                self.push(Instr::Imm(*n));
                self.push(Instr::Push);
            },
            Expression::Var(name) => {
                self.address(name);
                self.push(Instr::LoadSlot);
                self.push(Instr::Push);
            },
            Expression::Unary { op, operand } => {
                self.expr(operand);
                self.push(Instr::Pop0);
                self.push(Instr::Neg);
                self.push(Instr::Push);
            },
            Expression::Binary { lhs, op, rhs } => match op {
                BinaryOp::Assign => {
                    self.expr(rhs);
                    match &**lhs {
                        Expression::Var(name) => {
                            self.push(Instr::Peek);
                            self.address(name);
                            self.push(Instr::StoreSlot);
                        },
                        _ => {},
                    }
                },
                _ => {
                    self.expr(lhs);
                    self.expr(rhs);
                    self.operator(*op);
                },
            },
        }
    }

    fn test(&mut self, cond: &Expression, exit: Label)
        requires
            old(self).wf(),
        ensures
            final(self).wf(),
            final(self).gen() == lower_test(cond@, old(self).gen(), exit),
            final(self).gen().sites >= old(self).gen().sites,
    {
        self.expr(cond);
        self.push(Instr::Pop0);
        self.push(Instr::CmpZero);
        self.push(Instr::JumpEq(exit));
    }

    fn stmts(&mut self, body: &Vec<Statement>, keep: bool)
        requires
            old(self).wf(),
        ensures
            final(self).wf(),
            final(self).gen() == lower_stmts(stmt_views(body@), 0, keep, old(self).gen()),
            final(self).gen().sites >= old(self).gen().sites,
        decreases body, 0int,
    {
        let ghost views = stmt_views(body@);
        let ghost start = self.gen();
        let mut i: usize = 0;
        while i < body.len()
            invariant
                i <= body.len(),
                self.wf(),
                views == stmt_views(body@),
                start == old(self).gen(),
                self.gen().sites >= start.sites,
                lower_stmts(views, 0, keep, start) == lower_stmts(views, i as int, keep, self.gen()),
            decreases body.len() - i,
        {
            assert(views[i as int] == body@[i as int]@);
            self.stmt(&body[i]);
            if keep {
                self.push(Instr::Keep);
            }
            i += 1;
        }
    }

    fn stmt(&mut self, stmt: &Statement)
        requires
            old(self).wf(),
        ensures
            final(self).wf(),
            final(self).gen() == lower_stmt(stmt@, old(self).gen()),
            final(self).gen().sites >= old(self).gen().sites,
        decreases stmt, 0int,
    {
        match stmt {
            Statement::ExpressionStatement(e) => {
                self.expr(e);
                self.push(Instr::Pop0);
            },
            Statement::BlockStatement(body) => {
                self.push(Instr::Imm(0));
                self.stmts(body, false);
            },
            Statement::If(If { cond, then }) => {
                self.push(Instr::Imm(0));
                self.site();
                let done = self.label(Place::End);
                let otherwise = self.label(Place::Else);
                self.test(cond, otherwise);
                self.stmts(then, false);
                self.push(Instr::Jump(done));
                self.push(Instr::Mark(otherwise));
                self.push(Instr::Imm(0));
                self.push(Instr::Mark(done));
            },
            Statement::While(While { cond, body }) => {
                self.push(Instr::Imm(0));
                self.push(Instr::Push);
                self.run_loop(cond, &None, body);
            },
            Statement::For(For { init, cond, update, body }) => {
                match init {
                    Some(e) => {
                        self.expr(e);
                    },
                    None => {
                        self.push(Instr::Imm(0));
                        self.push(Instr::Push);
                    },
                }
                match cond {
                    Some(c) => {
                        self.run_loop(c, update, body);
                    },
                    None => {
                        self.push(Instr::Pop0);
                        self.push(Instr::Imm(0));
                    },
                }
            },
        }
    }

    fn run_loop(&mut self, cond: &Expression, update: &Option<Expression>, body: &Vec<Statement>)
        requires
            old(self).wf(),
            old(self).gen().sites < old(self).gen().code.len(),
        ensures
            final(self).wf(),
            final(self).gen() == lower_loop(
                cond@,
                option_view(*update),
                stmt_views(body@),
                old(self).gen(),
            ),
            final(self).gen().sites >= old(self).gen().sites,
        decreases body, 1int,
    {
        self.site();
        let again = self.label(Place::Begin);
        let done = self.label(Place::Done);
        self.push(Instr::Mark(again));
        self.test(cond, done);
        self.stmts(body, true);
        match update {
            Some(u) => {
                self.expr(u);
                self.push(Instr::Pop1);
            },
            None => {},
        }
        self.push(Instr::Jump(again));
        self.push(Instr::Mark(done));
        self.push(Instr::Pop0);
    }
}

} // verus!
