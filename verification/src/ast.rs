//! Expressions, statements and the operator table.

use crate::token::KindView;
use crate::token::TokenKind;
use vstd::prelude::*;

pub mod prec;

verus! {

/// The side to which an operator groups.
#[derive(Debug, PartialEq, Eq, Clone, Copy)]
pub enum Assoc {
    Left,
    Right,
}

/// How tightly a binary operator binds, and to which side it groups.
#[derive(Debug, PartialEq, Eq, Clone, Copy)]
pub struct OpInfo {
    pub prec: u8,
    pub assoc: Assoc,
}

/// The operators that stand between two operands.
#[derive(Debug, PartialEq, Eq, Clone, Copy)]
pub enum BinaryOp {
    Plus,
    Minus,
    Mul,
    Div,
    Pow,
    Eq,
    Neq,
    Gt,
    GtEq,
    Lt,
    LtEq,
    Assign,
}

impl OpInfo {
    /// Whether an operator of this strength may continue an expression that
    /// asks for at least `min_prec`.
    pub open spec fn spec_binds_at(&self, min_prec: u8) -> bool {
        self.prec >= min_prec
    }

    /// Whether an operator of this strength may continue an expression that
    /// asks for at least `min_prec`.
    #[verifier::when_used_as_spec(spec_binds_at)]
    pub fn binds_at(&self, min_prec: u8) -> (b: bool)
        ensures
            b == self.spec_binds_at(min_prec),
    {
        self.prec >= min_prec
    }

    /// The least strength asked of the right operand: one more than the
    /// operator's own where it groups to the left, its own where it groups
    /// to the right.
    pub open spec fn spec_rhs_prec(&self) -> int {
        match self.assoc {
            Assoc::Left => self.prec + 1,
            Assoc::Right => self.prec as int,
        }
    }
}

/// The binary operator that a token kind stands for, if any.
pub open spec fn binary_op_of(kind: KindView) -> Option<BinaryOp> {
    match kind {
        KindView::Plus => Some(BinaryOp::Plus),
        KindView::Minus => Some(BinaryOp::Minus),
        KindView::Mul => Some(BinaryOp::Mul),
        KindView::Div => Some(BinaryOp::Div),
        KindView::Pow => Some(BinaryOp::Pow),
        KindView::Eq => Some(BinaryOp::Eq),
        KindView::Neq => Some(BinaryOp::Neq),
        KindView::Gt => Some(BinaryOp::Gt),
        KindView::Lt => Some(BinaryOp::Lt),
        KindView::GtEq => Some(BinaryOp::GtEq),
        KindView::LtEq => Some(BinaryOp::LtEq),
        KindView::Assign => Some(BinaryOp::Assign),
        _ => None,
    }
}

impl BinaryOp {
    /// The operator table: comparisons bind weaker than `+ -`, those weaker
    /// than `* /`, and `^` binds strongest; `=` binds weakest. `=` and `^`
    /// group to the right, all others to the left.
    pub open spec fn spec_op_info(&self) -> OpInfo {
        match self {
            BinaryOp::Eq | BinaryOp::Neq | BinaryOp::Gt | BinaryOp::GtEq | BinaryOp::Lt
            | BinaryOp::LtEq => OpInfo { prec: prec::COMPARE, assoc: Assoc::Left },
            BinaryOp::Plus | BinaryOp::Minus => OpInfo { prec: prec::PLUS, assoc: Assoc::Left },
            BinaryOp::Mul | BinaryOp::Div => OpInfo { prec: prec::MUL, assoc: Assoc::Left },
            BinaryOp::Pow => OpInfo { prec: prec::POW, assoc: Assoc::Right },
            BinaryOp::Assign => OpInfo { prec: prec::ASSIGN, assoc: Assoc::Right },
        }
    }

    /// How tightly the operator binds, and to which side it groups.
    #[verifier::when_used_as_spec(spec_op_info)]
    pub fn op_info(&self) -> (info: OpInfo)
        ensures
            info == self.spec_op_info(),
    {
        match self {
            BinaryOp::Eq | BinaryOp::Neq | BinaryOp::Gt | BinaryOp::GtEq | BinaryOp::Lt
            | BinaryOp::LtEq => OpInfo { prec: prec::COMPARE, assoc: Assoc::Left },
            BinaryOp::Plus | BinaryOp::Minus => OpInfo { prec: prec::PLUS, assoc: Assoc::Left },
            BinaryOp::Mul | BinaryOp::Div => OpInfo { prec: prec::MUL, assoc: Assoc::Left },
            BinaryOp::Pow => OpInfo { prec: prec::POW, assoc: Assoc::Right },
            BinaryOp::Assign => OpInfo { prec: prec::ASSIGN, assoc: Assoc::Right },
        }
    }

    /// The binary operator that a token kind stands for, if any.
    pub fn from_kind(kind: &TokenKind) -> (op: Option<BinaryOp>)
        ensures
            op == binary_op_of(kind@),
    {
        match kind {
            TokenKind::Plus => Some(BinaryOp::Plus),
            TokenKind::Minus => Some(BinaryOp::Minus),
            TokenKind::Mul => Some(BinaryOp::Mul),
            TokenKind::Div => Some(BinaryOp::Div),
            TokenKind::Pow => Some(BinaryOp::Pow),
            TokenKind::Eq => Some(BinaryOp::Eq),
            TokenKind::Neq => Some(BinaryOp::Neq),
            TokenKind::Gt => Some(BinaryOp::Gt),
            TokenKind::Lt => Some(BinaryOp::Lt),
            TokenKind::GtEq => Some(BinaryOp::GtEq),
            TokenKind::LtEq => Some(BinaryOp::LtEq),
            TokenKind::Assign => Some(BinaryOp::Assign),
            _ => None,
        }
    }
}

/// The operators that stand before one operand.
#[derive(Debug, PartialEq, Eq, Clone, Copy)]
pub enum UnaryOp {
    Minus,
}

/// An expression: a tree whose nodes own their operands.
#[derive(Debug, PartialEq)]
pub enum Expression {
    Unary { op: UnaryOp, operand: Box<Expression> },
    Binary { lhs: Box<Expression>, op: BinaryOp, rhs: Box<Expression> },
    Value(i32),
    Var(String),
}

/// Mathematical value of an [`Expression`]: a variable is its name's characters.
pub enum Expr {
    Unary { op: UnaryOp, operand: Box<Expr> },
    Binary { lhs: Box<Expr>, op: BinaryOp, rhs: Box<Expr> },
    Value(i32),
    Var(Seq<char>),
}

/// The mathematical value of an expression.
pub open spec fn expr_view(e: Expression) -> Expr
    decreases e,
{
    match e {
        Expression::Unary { op, operand } => Expr::Unary {
            op,
            operand: Box::new(expr_view(*operand)),
        },
        Expression::Binary { lhs, op, rhs } => Expr::Binary {
            lhs: Box::new(expr_view(*lhs)),
            op,
            rhs: Box::new(expr_view(*rhs)),
        },
        Expression::Value(n) => Expr::Value(n),
        Expression::Var(name) => Expr::Var(name@),
    }
}

impl View for Expression {
    type V = Expr;

    open spec fn view(&self) -> Expr {
        expr_view(*self)
    }
}

/// `if (cond) { then }`
#[derive(Debug, PartialEq)]
pub struct If {
    pub cond: Expression,
    pub then: Vec<Statement>,
}

/// `while (cond) { body }`
#[derive(Debug, PartialEq)]
pub struct While {
    pub cond: Expression,
    pub body: Vec<Statement>,
}

/// `for (init; cond; update) { body }`, each clause optional.
#[derive(Debug, PartialEq)]
pub struct For {
    pub init: Option<Expression>,
    pub cond: Option<Expression>,
    pub update: Option<Expression>,
    pub body: Vec<Statement>,
}

/// A statement.
#[derive(Debug, PartialEq)]
pub enum Statement {
    ExpressionStatement(Expression),
    BlockStatement(Vec<Statement>),
    If(If),
    While(While),
    For(For),
}

/// Mathematical value of a [`Statement`].
pub enum Stmt {
    Expression(Expr),
    Block(Seq<Stmt>),
    If { cond: Expr, then: Seq<Stmt> },
    While { cond: Expr, body: Seq<Stmt> },
    For { init: Option<Expr>, cond: Option<Expr>, update: Option<Expr>, body: Seq<Stmt> },
}

/// The mathematical value of an optional expression.
pub open spec fn option_view(e: Option<Expression>) -> Option<Expr> {
    match e {
        Some(e) => Some(e@),
        None => None,
    }
}

/// The views of a run of statements, in order.
pub open spec fn stmt_views(stmts: Seq<Statement>) -> Seq<Stmt>
    decreases stmts, 1int,
{
    Seq::new(
        stmts.len(),
        |i: int|
            if 0 <= i < stmts.len() {
                stmt_view(stmts[i])
            } else {
                arbitrary()
            },
    )
}

/// The mathematical value of a statement.
pub open spec fn stmt_view(s: Statement) -> Stmt
    decreases s, 0int,
{
    match s {
        Statement::ExpressionStatement(e) => Stmt::Expression(e@),
        Statement::BlockStatement(body) => Stmt::Block(stmt_views(body@)),
        Statement::If(If { cond, then }) => Stmt::If { cond: cond@, then: stmt_views(then@) },
        Statement::While(While { cond, body }) => Stmt::While {
            cond: cond@,
            body: stmt_views(body@),
        },
        Statement::For(For { init, cond, update, body }) => Stmt::For {
            init: option_view(init),
            cond: option_view(cond),
            update: option_view(update),
            body: stmt_views(body@),
        },
    }
}

impl View for Statement {
    type V = Stmt;

    open spec fn view(&self) -> Stmt {
        stmt_view(*self)
    }
}

/// A program: statements in order.
#[derive(Debug, PartialEq)]
pub struct Program {
    pub body: Vec<Statement>,
}

impl View for Program {
    type V = Seq<Stmt>;

    open spec fn view(&self) -> Seq<Stmt> {
        stmt_views(self.body@)
    }
}

/// Whether the left side of every assignment in the expression is a variable.
pub open spec fn targets_ok(e: Expr) -> bool
    decreases e,
{
    match e {
        Expr::Unary { op, operand } => targets_ok(*operand),
        Expr::Binary { lhs, op, rhs } => {
            &&& targets_ok(*lhs)
            &&& targets_ok(*rhs)
            &&& op == BinaryOp::Assign ==> *lhs is Var
        },
        Expr::Value(_) => true,
        Expr::Var(_) => true,
    }
}

/// Whether the left side of every assignment in the expression, if there is
/// one, is a variable.
pub open spec fn option_targets_ok(e: Option<Expr>) -> bool {
    match e {
        Some(e) => targets_ok(e),
        None => true,
    }
}

/// Whether the left side of every assignment in the statement is a variable.
pub open spec fn stmt_targets_ok(s: Stmt) -> bool
    decreases s, 0int,
{
    match s {
        Stmt::Expression(e) => targets_ok(e),
        Stmt::Block(body) => block_targets_ok(body),
        Stmt::If { cond, then } => targets_ok(cond) && block_targets_ok(then),
        Stmt::While { cond, body } => targets_ok(cond) && block_targets_ok(body),
        Stmt::For { init, cond, update, body } => {
            &&& option_targets_ok(init)
            &&& option_targets_ok(cond)
            &&& option_targets_ok(update)
            &&& block_targets_ok(body)
        },
    }
}

/// Whether the left side of every assignment in the statements is a variable.
pub open spec fn block_targets_ok(body: Seq<Stmt>) -> bool
    decreases body, 1int,
{
    forall|i: int| 0 <= i < body.len() ==> stmt_targets_ok(#[trigger] body[i])
}


impl Expression {
    /// Whether the left side of every assignment in the expression is a variable.
    pub fn has_valid_targets(&self) -> (b: bool)
        ensures
            b == targets_ok(self@),
        decreases self,
    {
        match self {
            Expression::Value(_) => true,
            Expression::Var(_) => true,
            Expression::Unary { op, operand } => operand.has_valid_targets(),
            Expression::Binary { lhs, op, rhs } => {
                let target = match (op, &**lhs) {
                    (BinaryOp::Assign, Expression::Var(_)) => true,
                    (BinaryOp::Assign, _) => false,
                    _ => true,
                };
                target && lhs.has_valid_targets() && rhs.has_valid_targets()
            },
        }
    }
}

/// Whether the left side of every assignment in the expression, if there is
/// one, is a variable.
pub fn clause_has_valid_targets(e: &Option<Expression>) -> (b: bool)
    ensures
        b == option_targets_ok(option_view(*e)),
{
    match e {
        Some(e) => e.has_valid_targets(),
        None => true,
    }
}

/// Whether the left side of every assignment in the statements is a variable.
pub fn block_has_valid_targets(body: &Vec<Statement>) -> (b: bool)
    ensures
        b == block_targets_ok(stmt_views(body@)),
    decreases body, 0int,
{
    let ghost views = stmt_views(body@);
    let mut i: usize = 0;
    while i < body.len()
        invariant
            i <= body.len(),
            views == stmt_views(body@),
            forall|k: int| 0 <= k < i ==> stmt_targets_ok(#[trigger] views[k]),
        decreases body.len() - i,
    {
        assert(views[i as int] == body@[i as int]@);
        if !body[i].has_valid_targets() {
            return false;
        }
        i += 1;
    }
    true
}

impl Statement {
    /// Whether the left side of every assignment in the statement is a variable.
    pub fn has_valid_targets(&self) -> (b: bool)
        ensures
            b == stmt_targets_ok(self@),
        decreases self, 0int,
    {
        match self {
            Statement::ExpressionStatement(e) => e.has_valid_targets(),
            Statement::BlockStatement(body) => block_has_valid_targets(body),
            Statement::If(If { cond, then }) => cond.has_valid_targets() && block_has_valid_targets(
                then,
            ),
            Statement::While(While { cond, body }) => cond.has_valid_targets()
                && block_has_valid_targets(body),
            Statement::For(For { init, cond, update, body }) => clause_has_valid_targets(init)
                && clause_has_valid_targets(cond) && clause_has_valid_targets(update)
                && block_has_valid_targets(body),
        }
    }
}

impl Program {
    /// Whether the left side of every assignment in the program is a
    /// variable, as it is in every program that was parsed.
    pub fn has_valid_targets(&self) -> (b: bool)
        ensures
            b == block_targets_ok(self@),
    {
        block_has_valid_targets(&self.body)
    }
}

} // verus!
