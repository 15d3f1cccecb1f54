//! Labels in generated code: every label is defined once, and every branch
//! goes to a label that is defined.

use crate::assembly::Instr;
use crate::assembly::Label;
use crate::assembly::Place;
use crate::ast::BinaryOp;
use crate::ast::Expr;
use crate::ast::Stmt;
use crate::codegen::address;
use crate::codegen::arithmetic;
use crate::codegen::comparison;
use crate::codegen::emit;
use crate::codegen::epilogue;
use crate::codegen::label_at;
use crate::codegen::lower_expr;
use crate::codegen::lower_loop;
use crate::codegen::lower_operator;
use crate::codegen::lower_pow;
use crate::codegen::lower_program;
use crate::codegen::lower_stmt;
use crate::codegen::lower_stmts;
use crate::codegen::lower_test;
use crate::codegen::next_site;
use crate::codegen::program_code;
use crate::codegen::prologue;
use crate::codegen::with_var;
use crate::codegen::Gen;
use vstd::prelude::*;

verus! {

/// The label that a branch goes to.
pub open spec fn target(i: Instr) -> Option<Label> {
    match i {
        Instr::Jump(l) => Some(l),
        Instr::JumpEq(l) => Some(l),
        Instr::JumpNe(l) => Some(l),
        Instr::JumpIfZero(l) => Some(l),
        _ => None,
    }
}

/// Whether the code defines the label.
pub open spec fn has_mark(code: Seq<Instr>, l: Label) -> bool {
    exists|j: int| 0 <= j < code.len() && #[trigger] code[j] == Instr::Mark(l)
}

/// No label is defined twice.
pub open spec fn marks_distinct(code: Seq<Instr>) -> bool {
    forall|i: int, j: int|
        0 <= i < j < code.len() && (#[trigger] code[i]) is Mark && (#[trigger] code[j]) is Mark
            ==> code[i] != code[j]
}

/// Every branch goes to a label that the code defines.
pub open spec fn targets_marked(code: Seq<Instr>) -> bool {
    forall|i: int|
        0 <= i < code.len() && target(#[trigger] code[i]) is Some ==> has_mark(
            code,
            target(code[i])->0,
        )
}

/// A piece of control flow that is being generated: its number, the places
/// of it that are defined so far, and those that a branch goes to so far.
pub struct Site {
    pub n: int,
    pub marked: Set<Place>,
    pub wanted: Set<Place>,
}

/// No piece being generated: all numbers from `from` on are free.
pub open spec fn closed(from: nat) -> Site {
    Site { n: from - 1, marked: Set::empty(), wanted: Set::empty() }
}

/// A label may be defined where it belongs to a later piece, or to the piece
/// being generated and is noted there.
pub open spec fn mark_allowed(l: Label, hi: int, o: Site) -> bool {
    (o.n < l.site < hi) || (l.site == o.n && o.marked.contains(l.place))
}

/// A branch may go to a label of a later piece that the code defines, or to
/// a label of the piece being generated that is noted there.
pub open spec fn jump_allowed(seg: Seq<Instr>, l: Label, hi: int, o: Site) -> bool {
    (o.n < l.site < hi && has_mark(seg, l)) || (l.site == o.n && o.wanted.contains(l.place))
}

/// What holds of the code generated for a piece of control flow so far:
/// labels of later pieces are defined once and branched to only where
/// defined; the piece's own labels are those noted in `o`.
pub open spec fn seg_ok(seg: Seq<Instr>, hi: int, o: Site) -> bool {
    &&& forall|i: int|
        0 <= i < seg.len() && (#[trigger] seg[i]) is Mark ==> mark_allowed(seg[i]->Mark_0, hi, o)
    &&& marks_distinct(seg)
    &&& forall|p: Place|
        #[trigger] o.marked.contains(p) ==> has_mark(seg, Label { place: p, site: o.n as usize })
    &&& forall|i: int|
        0 <= i < seg.len() && target(#[trigger] seg[i]) is Some ==> jump_allowed(
            seg,
            target(seg[i])->0,
            hi,
            o,
        )
}

/// The code that `h` has beyond `g`.
pub open spec fn added(g: Gen, h: Gen) -> Seq<Instr> {
    h.code.subrange(g.code.len() as int, h.code.len() as int)
}

/// `h` is `g` with more code and no fewer pieces numbered.
pub open spec fn follows(g: Gen, h: Gen) -> bool {
    &&& g.code.len() <= h.code.len()
    &&& h.code.subrange(0, g.code.len() as int) == g.code
    &&& g.sites <= h.sites
}

/// What noting an instruction does to the piece being generated.
pub open spec fn after(o: Site, i: Instr) -> Site {
    match i {
        Instr::Mark(l) => Site { n: o.n, marked: o.marked.insert(l.place), wanted: o.wanted },
        _ => match target(i) {
            Some(l) => Site { n: o.n, marked: o.marked, wanted: o.wanted.insert(l.place) },
            None => o,
        },
    }
}

proof fn lemma_has_mark_push(seg: Seq<Instr>, i: Instr, l: Label)
    requires
        has_mark(seg, l),
    ensures
        has_mark(seg.push(i), l),
{
    let j = choose|j: int| 0 <= j < seg.len() && #[trigger] seg[j] == Instr::Mark(l);
    assert(seg.push(i)[j] == Instr::Mark(l));
}

proof fn lemma_has_mark_left(a: Seq<Instr>, b: Seq<Instr>, l: Label)
    requires
        has_mark(a, l),
    ensures
        has_mark(a + b, l),
{
    let j = choose|j: int| 0 <= j < a.len() && #[trigger] a[j] == Instr::Mark(l);
    assert((a + b)[j] == Instr::Mark(l));
}

proof fn lemma_has_mark_right(a: Seq<Instr>, b: Seq<Instr>, l: Label)
    requires
        has_mark(b, l),
    ensures
        has_mark(a + b, l),
{
    let j = choose|j: int| 0 <= j < b.len() && #[trigger] b[j] == Instr::Mark(l);
    assert((a + b)[a.len() + j] == Instr::Mark(l));
}

/// Nothing generated yet is in order for any piece.
proof fn lemma_start(g: Gen, o: Site)
    requires
        o.marked == Set::<Place>::empty(),
    ensures
        follows(g, g),
        seg_ok(added(g, g), g.sites as int, o),
{
    assert(g.code.subrange(0, g.code.len() as int) == g.code);
}

/// One more instruction: a label of the piece being generated that is not
/// defined yet, a branch to a label of that piece, or an instruction
/// without a label.
proof fn lemma_emit(g0: Gen, h: Gen, i: Instr, o: Site)
    requires
        follows(g0, h),
        seg_ok(added(g0, h), h.sites as int, o),
        0 <= o.n <= usize::MAX || (!(i is Mark) && target(i) is None),
        i matches Instr::Mark(l) ==> l.site == o.n && !o.marked.contains(l.place),
        target(i) matches Some(l) ==> l.site == o.n,
    ensures
        follows(g0, emit(h, i)),
        seg_ok(added(g0, emit(h, i)), h.sites as int, after(o, i)),
        added(g0, emit(h, i)) == added(g0, h).push(i),
{
    let before = added(g0, h);
    let k = emit(h, i);
    let seg = added(g0, k);
    let o2 = after(o, i);
    let hi = h.sites as int;
    assert(seg == before.push(i));
    assert(k.code.subrange(0, g0.code.len() as int) == h.code.subrange(0, g0.code.len() as int));
    assert forall|x: int| 0 <= x < seg.len() && (#[trigger] seg[x]) is Mark implies mark_allowed(
        seg[x]->Mark_0,
        hi,
        o2,
    ) by {
        if x < before.len() {
            assert(seg[x] == before[x]);
        }
    }
    assert forall|x: int, y: int|
        0 <= x < y < seg.len() && (#[trigger] seg[x]) is Mark && (#[trigger] seg[y]) is Mark
        implies seg[x] != seg[y] by {
        assert(seg[x] == before[x]);
        if y < before.len() {
            assert(seg[y] == before[y]);
        } else {
            assert(mark_allowed(before[x]->Mark_0, hi, o));
        }
    }
    assert forall|p: Place| #[trigger] o2.marked.contains(p) implies has_mark(
        seg,
        Label { place: p, site: o2.n as usize },
    ) by {
        let l = Label { place: p, site: o.n as usize };
        if o.marked.contains(p) {
            lemma_has_mark_push(before, i, l);
        } else {
            assert(seg[before.len() as int] == Instr::Mark(l));
        }
    }
    assert forall|x: int| 0 <= x < seg.len() && target(#[trigger] seg[x]) is Some implies jump_allowed(
        seg,
        target(seg[x])->0,
        hi,
        o2,
    ) by {
        if x < before.len() {
            assert(seg[x] == before[x]);
            let l = target(before[x])->0;
            assert(jump_allowed(before, l, hi, o));
            if has_mark(before, l) {
                lemma_has_mark_push(before, i, l);
            }
        }
    }
}

/// The next piece gets its number.
proof fn lemma_site(g0: Gen, h: Gen, o: Site)
    requires
        follows(g0, h),
        seg_ok(added(g0, h), h.sites as int, o),
    ensures
        follows(g0, next_site(h)),
        seg_ok(added(g0, next_site(h)), (h.sites + 1) as int, o),
        added(g0, next_site(h)) == added(g0, h),
{
    let seg = added(g0, h);
    assert forall|x: int| 0 <= x < seg.len() && target(#[trigger] seg[x]) is Some implies jump_allowed(
        seg,
        target(seg[x])->0,
        (h.sites + 1) as int,
        o,
    ) by {
        assert(jump_allowed(seg, target(seg[x])->0, h.sites as int, o));
    }
}

/// The code of a later piece, complete in itself, goes after the code so far.
proof fn lemma_nested(g0: Gen, h: Gen, k: Gen, o: Site)
    requires
        follows(g0, h),
        follows(h, k),
        seg_ok(added(g0, h), h.sites as int, o),
        seg_ok(added(h, k), k.sites as int, closed(h.sites)),
        o.n < h.sites,
    ensures
        follows(g0, k),
        seg_ok(added(g0, k), k.sites as int, o),
{
    let a = added(g0, h);
    let b = added(h, k);
    let seg = added(g0, k);
    let hi = k.sites as int;
    let mid = h.sites as int;
    assert(seg == a + b);
    assert(k.code.subrange(0, g0.code.len() as int) =~= g0.code) by {
        assert forall|x: int| 0 <= x < g0.code.len() implies k.code[x] == g0.code[x] by {
            assert(k.code.subrange(0, h.code.len() as int)[x] == h.code[x]);
            assert(h.code.subrange(0, g0.code.len() as int)[x] == g0.code[x]);
        }
    }
    assert forall|x: int| 0 <= x < seg.len() && (#[trigger] seg[x]) is Mark implies mark_allowed(
        seg[x]->Mark_0,
        hi,
        o,
    ) by {
        if x < a.len() {
            assert(seg[x] == a[x]);
            assert(mark_allowed(a[x]->Mark_0, mid, o));
        } else {
            assert(seg[x] == b[x - a.len()]);
            assert(mark_allowed(b[x - a.len()]->Mark_0, hi, closed(h.sites)));
        }
    }
    assert forall|x: int, y: int|
        0 <= x < y < seg.len() && (#[trigger] seg[x]) is Mark && (#[trigger] seg[y]) is Mark
        implies seg[x] != seg[y] by {
        if y < a.len() {
            assert(seg[x] == a[x] && seg[y] == a[y]);
        } else if x >= a.len() {
            assert(seg[x] == b[x - a.len()] && seg[y] == b[y - a.len()]);
        } else {
            assert(seg[x] == a[x] && seg[y] == b[y - a.len()]);
            assert(mark_allowed(a[x]->Mark_0, mid, o));
            assert(mark_allowed(b[y - a.len()]->Mark_0, hi, closed(h.sites)));
        }
    }
    assert forall|p: Place| #[trigger] o.marked.contains(p) implies has_mark(
        seg,
        Label { place: p, site: o.n as usize },
    ) by {
        lemma_has_mark_left(a, b, Label { place: p, site: o.n as usize });
    }
    assert forall|x: int| 0 <= x < seg.len() && target(#[trigger] seg[x]) is Some implies jump_allowed(
        seg,
        target(seg[x])->0,
        hi,
        o,
    ) by {
        if x < a.len() {
            assert(seg[x] == a[x]);
            let l = target(a[x])->0;
            assert(jump_allowed(a, l, mid, o));
            if has_mark(a, l) {
                lemma_has_mark_left(a, b, l);
            }
        } else {
            assert(seg[x] == b[x - a.len()]);
            let l = target(b[x - a.len()])->0;
            assert(jump_allowed(b, l, hi, closed(h.sites)));
            lemma_has_mark_right(a, b, l);
        }
    }
}

/// A piece of which every label that is branched to is defined is complete
/// in itself.
proof fn lemma_close(seg: Seq<Instr>, hi: int, o: Site)
    requires
        seg_ok(seg, hi, o),
        0 <= o.n < hi,
        o.wanted.subset_of(o.marked),
        o.n <= usize::MAX,
    ensures
        seg_ok(seg, hi, closed(o.n as nat)),
{
    let c = closed(o.n as nat);
    assert forall|x: int| 0 <= x < seg.len() && (#[trigger] seg[x]) is Mark implies mark_allowed(
        seg[x]->Mark_0,
        hi,
        c,
    ) by {
        assert(mark_allowed(seg[x]->Mark_0, hi, o));
    }
    assert forall|x: int| 0 <= x < seg.len() && target(#[trigger] seg[x]) is Some implies jump_allowed(
        seg,
        target(seg[x])->0,
        hi,
        c,
    ) by {
        let l = target(seg[x])->0;
        assert(jump_allowed(seg, l, hi, o));
        if l.site == o.n && o.wanted.contains(l.place) {
            assert(o.marked.contains(l.place));
            assert(has_mark(seg, Label { place: l.place, site: o.n as usize }));
            assert(l == Label { place: l.place, site: o.n as usize });
        }
    }
}

/// Generating an expression takes no number back.
pub proof fn lemma_expr_sites(e: Expr, g: Gen)
    ensures
        g.sites <= lower_expr(e, g).sites,
    decreases e,
{
    match e {
        Expr::Value(_) => {},
        Expr::Var(_) => {},
        Expr::Unary { op, operand } => {
            lemma_expr_sites(*operand, g);
        },
        Expr::Binary { lhs, op, rhs } => {
            if op == BinaryOp::Assign {
                lemma_expr_sites(*rhs, g);
            } else {
                lemma_expr_sites(*lhs, g);
                lemma_expr_sites(*rhs, lower_expr(*lhs, g));
            }
        },
    }
}

/// Generating a statement takes no number back.
pub proof fn lemma_stmt_sites(s: Stmt, g: Gen)
    ensures
        g.sites <= lower_stmt(s, g).sites,
    decreases s, 0int,
{
    match s {
        Stmt::Expression(e) => {
            lemma_expr_sites(e, g);
        },
        Stmt::Block(body) => {
            lemma_stmts_sites(body, 0, false, emit(g, Instr::Imm(0)));
        },
        Stmt::If { cond, then } => {
            let g1 = next_site(emit(g, Instr::Imm(0)));
            lemma_expr_sites(cond, g1);
            lemma_stmts_sites(then, 0, false, lower_test(cond, g1, label_at(g1, Place::Else)));
        },
        Stmt::While { cond, body } => {
            lemma_loop_sites(cond, None, body, emit(emit(g, Instr::Imm(0)), Instr::Push));
        },
        Stmt::For { init, cond, update, body } => {
            let g1 = match init {
                Some(e) => lower_expr(e, g),
                None => emit(emit(g, Instr::Imm(0)), Instr::Push),
            };
            match init {
                Some(e) => {
                    lemma_expr_sites(e, g);
                },
                None => {},
            }
            match cond {
                Some(c) => {
                    lemma_loop_sites(c, update, body, g1);
                },
                None => {},
            }
        },
    }
}

/// Generating statements takes no number back.
pub proof fn lemma_stmts_sites(body: Seq<Stmt>, from: int, keep: bool, g: Gen)
    ensures
        g.sites <= lower_stmts(body, from, keep, g).sites,
    decreases body, body.len() - from,
{
    if 0 <= from < body.len() {
        lemma_stmt_sites(body[from], g);
        let g1 = lower_stmt(body[from], g);
        let g2 = if keep {
            emit(g1, Instr::Keep)
        } else {
            g1
        };
        lemma_stmts_sites(body, from + 1, keep, g2);
    }
}

/// Generating a loop takes no number back.
pub proof fn lemma_loop_sites(cond: Expr, update: Option<Expr>, body: Seq<Stmt>, g: Gen)
    ensures
        g.sites < lower_loop(cond, update, body, g).sites,
    decreases body, body.len() + 1,
{
    let g1 = next_site(g);
    let g2 = emit(g1, Instr::Mark(label_at(g1, Place::Begin)));
    lemma_expr_sites(cond, g2);
    let g3 = lower_test(cond, g2, label_at(g1, Place::Done));
    lemma_stmts_sites(body, 0, true, g3);
    let g4 = lower_stmts(body, 0, true, g3);
    match update {
        Some(u) => {
            lemma_expr_sites(u, g4);
        },
        None => {},
    }
}

/// The address of a variable's slot adds no label and no branch.
proof fn lemma_address(g0: Gen, h: Gen, name: Seq<char>, o: Site)
    requires
        follows(g0, h),
        seg_ok(added(g0, h), h.sites as int, o),
    ensures
        follows(g0, address(h, name)),
        seg_ok(added(g0, address(h, name)), h.sites as int, o),
        address(h, name).sites == h.sites,
{
    let h1 = with_var(h, name);
    assert(added(g0, h1) == added(g0, h));
    let slot = Instr::Slot((crate::codegen::var_index(h.vars, name, 0) + 1) as usize);
    lemma_emit(g0, h1, slot, o);
    lemma_emit(g0, emit(h1, slot), Instr::Addr, o);
}

/// The code of the multiplication loop of a `^` is complete in itself.
proof fn lemma_pow(g: Gen)
    requires
        g.sites + 1 <= usize::MAX,
    ensures
        follows(g, lower_pow(g)),
        seg_ok(added(g, lower_pow(g)), lower_pow(g).sites as int, closed(g.sites)),
        lower_pow(g).sites == g.sites + 1,
{
    let o0 = Site { n: g.sites as int, marked: Set::empty(), wanted: Set::empty() };
    lemma_start(g, o0);
    lemma_emit(g, g, Instr::PowInit, o0);
    let h1 = emit(g, Instr::PowInit);
    lemma_site(g, h1, o0);
    let h2 = next_site(h1);
    let end = label_at(h2, Place::PowEnd);
    let again = label_at(h2, Place::Pow);
    lemma_emit(g, h2, Instr::JumpIfZero(end), o0);
    let o1 = after(o0, Instr::JumpIfZero(end));
    let h3 = emit(h2, Instr::JumpIfZero(end));
    lemma_emit(g, h3, Instr::Mark(again), o1);
    let o2 = after(o1, Instr::Mark(again));
    let h4 = emit(h3, Instr::Mark(again));
    lemma_emit(g, h4, Instr::PowMul, o2);
    let h5 = emit(h4, Instr::PowMul);
    lemma_emit(g, h5, Instr::PowCount, o2);
    let h6 = emit(h5, Instr::PowCount);
    lemma_emit(g, h6, Instr::JumpNe(again), o2);
    let o3 = after(o2, Instr::JumpNe(again));
    let h7 = emit(h6, Instr::JumpNe(again));
    lemma_emit(g, h7, Instr::Mark(end), o3);
    let o4 = after(o3, Instr::Mark(end));
    let h8 = emit(h7, Instr::Mark(end));
    lemma_emit(g, h8, Instr::PowResult, o4);
    let h9 = emit(h8, Instr::PowResult);
    assert(h9 == lower_pow(g));
    lemma_close(added(g, h9), h9.sites as int, o4);
}

/// The code that computes an operator is complete in itself.
proof fn lemma_operator(op: BinaryOp, g: Gen)
    requires
        lower_operator(op, g).sites <= usize::MAX,
    ensures
        follows(g, lower_operator(op, g)),
        seg_ok(added(g, lower_operator(op, g)), lower_operator(op, g).sites as int, closed(g.sites)),
        g.sites <= lower_operator(op, g).sites,
{
    let o = closed(g.sites);
    lemma_start(g, o);
    lemma_emit(g, g, Instr::Pop1, o);
    let h1 = emit(g, Instr::Pop1);
    lemma_emit(g, h1, Instr::Pop0, o);
    let h2 = emit(h1, Instr::Pop0);
    match arithmetic(op) {
        Some(i) => {
            lemma_emit(g, h2, i, o);
            lemma_emit(g, emit(h2, i), Instr::Push, o);
        },
        None => match comparison(op) {
            Some(c) => {
                lemma_emit(g, h2, Instr::Cmp, o);
                let h3 = emit(h2, Instr::Cmp);
                lemma_emit(g, h3, Instr::SetIf(c), o);
                lemma_emit(g, emit(h3, Instr::SetIf(c)), Instr::Push, o);
            },
            None => {
                lemma_pow(h2);
                let h3 = lower_pow(h2);
                lemma_nested(g, h2, h3, o);
                lemma_emit(g, h3, Instr::Push, o);
            },
        },
    }
}

/// The code of an expression is complete in itself: its labels are defined
/// once each, and its branches go to labels that it defines.
pub proof fn lemma_expr_labels(e: Expr, g: Gen)
    requires
        lower_expr(e, g).sites <= usize::MAX,
    ensures
        follows(g, lower_expr(e, g)),
        seg_ok(added(g, lower_expr(e, g)), lower_expr(e, g).sites as int, closed(g.sites)),
    decreases e,
{
    let o = closed(g.sites);
    lemma_start(g, o);
    match e {
        Expr::Value(n) => {
            lemma_emit(g, g, Instr::Imm(n), o);
            lemma_emit(g, emit(g, Instr::Imm(n)), Instr::Push, o);
        },
        Expr::Var(name) => {
            lemma_address(g, g, name, o);
            let h1 = address(g, name);
            lemma_emit(g, h1, Instr::LoadSlot, o);
            lemma_emit(g, emit(h1, Instr::LoadSlot), Instr::Push, o);
        },
        Expr::Unary { op, operand } => {
            lemma_expr_labels(*operand, g);
            let h1 = lower_expr(*operand, g);
            lemma_emit(g, h1, Instr::Pop0, o);
            let h2 = emit(h1, Instr::Pop0);
            lemma_emit(g, h2, Instr::Neg, o);
            lemma_emit(g, emit(h2, Instr::Neg), Instr::Push, o);
        },
        Expr::Binary { lhs, op, rhs } => {
            if op == BinaryOp::Assign {
                lemma_expr_labels(*rhs, g);
                let h1 = lower_expr(*rhs, g);
                match *lhs {
                    Expr::Var(name) => {
                        lemma_emit(g, h1, Instr::Peek, o);
                        let h2 = emit(h1, Instr::Peek);
                        lemma_address(g, h2, name, o);
                        lemma_emit(g, address(h2, name), Instr::StoreSlot, o);
                    },
                    _ => {},
                }
            } else {
                let h1 = lower_expr(*lhs, g);
                let h2 = lower_expr(*rhs, h1);
                let h3 = lower_operator(op, h2);
                lemma_expr_sites(*lhs, g);
                lemma_expr_sites(*rhs, h1);
                lemma_expr_labels(*lhs, g);
                lemma_expr_labels(*rhs, h1);
                lemma_nested(g, h1, h2, o);
                lemma_operator(op, h2);
                lemma_nested(g, h2, h3, o);
            }
        },
    }
}

/// The test at the head of a piece of control flow branches to a label of
/// that piece.
proof fn lemma_test(g0: Gen, g: Gen, cond: Expr, exit: Label, o: Site)
    requires
        follows(g0, g),
        seg_ok(added(g0, g), g.sites as int, o),
        0 <= o.n < g.sites,
        o.n <= usize::MAX,
        exit.site == o.n,
        lower_test(cond, g, exit).sites <= usize::MAX,
    ensures
        follows(g0, lower_test(cond, g, exit)),
        seg_ok(
            added(g0, lower_test(cond, g, exit)),
            lower_test(cond, g, exit).sites as int,
            after(o, Instr::JumpEq(exit)),
        ),
        g.sites <= lower_test(cond, g, exit).sites,
{
    lemma_expr_sites(cond, g);
    lemma_expr_labels(cond, g);
    let h1 = lower_expr(cond, g);
    lemma_nested(g0, g, h1, o);
    lemma_emit(g0, h1, Instr::Pop0, o);
    let h2 = emit(h1, Instr::Pop0);
    lemma_emit(g0, h2, Instr::CmpZero, o);
    let h3 = emit(h2, Instr::CmpZero);
    lemma_emit(g0, h3, Instr::JumpEq(exit), o);
}

/// The code of a statement is complete in itself: its labels are defined
/// once each, and its branches go to labels that it defines.
pub proof fn lemma_stmt_labels(s: Stmt, g: Gen)
    requires
        lower_stmt(s, g).sites <= usize::MAX,
    ensures
        follows(g, lower_stmt(s, g)),
        seg_ok(added(g, lower_stmt(s, g)), lower_stmt(s, g).sites as int, closed(g.sites)),
    decreases s, 0int,
{
    let o = closed(g.sites);
    lemma_start(g, o);
    match s {
        Stmt::Expression(e) => {
            lemma_expr_labels(e, g);
            lemma_emit(g, lower_expr(e, g), Instr::Pop0, o);
        },
        Stmt::Block(body) => {
            lemma_emit(g, g, Instr::Imm(0), o);
            let h1 = emit(g, Instr::Imm(0));
            lemma_stmts_labels(body, 0, false, h1);
            lemma_nested(g, h1, lower_stmts(body, 0, false, h1), o);
        },
        Stmt::If { cond, then } => {
            let o0 = Site { n: g.sites as int, marked: Set::empty(), wanted: Set::empty() };
            lemma_start(g, o0);
            let h1 = emit(g, Instr::Imm(0));
            let h2 = next_site(h1);
            let otherwise = label_at(h2, Place::Else);
            let end = label_at(h2, Place::End);
            let h3 = lower_test(cond, h2, otherwise);
            let h4 = lower_stmts(then, 0, false, h3);
            lemma_expr_sites(cond, h2);
            lemma_stmts_sites(then, 0, false, h3);
            lemma_emit(g, g, Instr::Imm(0), o0);
            lemma_site(g, h1, o0);
            lemma_test(g, h2, cond, otherwise, o0);
            let o1 = after(o0, Instr::JumpEq(otherwise));
            lemma_stmts_labels(then, 0, false, h3);
            lemma_nested(g, h3, h4, o1);
            lemma_emit(g, h4, Instr::Jump(end), o1);
            let o2 = after(o1, Instr::Jump(end));
            let h5 = emit(h4, Instr::Jump(end));
            lemma_emit(g, h5, Instr::Mark(otherwise), o2);
            let o3 = after(o2, Instr::Mark(otherwise));
            let h6 = emit(h5, Instr::Mark(otherwise));
            lemma_emit(g, h6, Instr::Imm(0), o3);
            let h7 = emit(h6, Instr::Imm(0));
            lemma_emit(g, h7, Instr::Mark(end), o3);
            let o4 = after(o3, Instr::Mark(end));
            let h8 = emit(h7, Instr::Mark(end));
            assert(h8 == lower_stmt(s, g));
            lemma_close(added(g, h8), h8.sites as int, o4);
        },
        Stmt::While { cond, body } => {
            lemma_emit(g, g, Instr::Imm(0), o);
            let h1 = emit(g, Instr::Imm(0));
            lemma_emit(g, h1, Instr::Push, o);
            let h2 = emit(h1, Instr::Push);
            lemma_loop_labels(cond, None, body, h2);
            lemma_nested(g, h2, lower_loop(cond, None, body, h2), o);
        },
        Stmt::For { init, cond, update, body } => {
            let h1 = match init {
                Some(e) => lower_expr(e, g),
                None => emit(emit(g, Instr::Imm(0)), Instr::Push),
            };
            match cond {
                Some(c) => {
                    lemma_loop_sites(c, update, body, h1);
                },
                None => {},
            }
            match init {
                Some(e) => {
                    lemma_expr_labels(e, g);
                },
                None => {
                    lemma_emit(g, g, Instr::Imm(0), o);
                    lemma_emit(g, emit(g, Instr::Imm(0)), Instr::Push, o);
                },
            }
            match cond {
                Some(c) => {
                    lemma_loop_labels(c, update, body, h1);
                    lemma_nested(g, h1, lower_loop(c, update, body, h1), o);
                },
                None => {
                    lemma_emit(g, h1, Instr::Pop0, o);
                    lemma_emit(g, emit(h1, Instr::Pop0), Instr::Imm(0), o);
                },
            }
        },
    }
}

/// The code of a loop is complete in itself.
pub proof fn lemma_loop_labels(cond: Expr, update: Option<Expr>, body: Seq<Stmt>, g: Gen)
    requires
        lower_loop(cond, update, body, g).sites <= usize::MAX,
    ensures
        follows(g, lower_loop(cond, update, body, g)),
        seg_ok(
            added(g, lower_loop(cond, update, body, g)),
            lower_loop(cond, update, body, g).sites as int,
            closed(g.sites),
        ),
    decreases body, body.len() + 1,
{
    let o0 = Site { n: g.sites as int, marked: Set::empty(), wanted: Set::empty() };
    lemma_start(g, o0);
    let h1 = next_site(g);
    let begin = label_at(h1, Place::Begin);
    let done = label_at(h1, Place::Done);
    let h2 = emit(h1, Instr::Mark(begin));
    let h3 = lower_test(cond, h2, done);
    let h4 = lower_stmts(body, 0, true, h3);
    let h5 = match update {
        Some(u) => emit(lower_expr(u, h4), Instr::Pop1),
        None => h4,
    };
    lemma_expr_sites(cond, h2);
    lemma_stmts_sites(body, 0, true, h3);
    match update {
        Some(u) => {
            lemma_expr_sites(u, h4);
        },
        None => {},
    }
    lemma_site(g, g, o0);
    lemma_emit(g, h1, Instr::Mark(begin), o0);
    let o1 = after(o0, Instr::Mark(begin));
    lemma_test(g, h2, cond, done, o1);
    let o2 = after(o1, Instr::JumpEq(done));
    lemma_stmts_labels(body, 0, true, h3);
    lemma_nested(g, h3, h4, o2);
    match update {
        Some(u) => {
            lemma_expr_labels(u, h4);
            lemma_nested(g, h4, lower_expr(u, h4), o2);
            lemma_emit(g, lower_expr(u, h4), Instr::Pop1, o2);
        },
        None => {},
    }
    lemma_emit(g, h5, Instr::Jump(begin), o2);
    let o3 = after(o2, Instr::Jump(begin));
    let h6 = emit(h5, Instr::Jump(begin));
    lemma_emit(g, h6, Instr::Mark(done), o3);
    let o4 = after(o3, Instr::Mark(done));
    let h7 = emit(h6, Instr::Mark(done));
    lemma_emit(g, h7, Instr::Pop0, o4);
    let h8 = emit(h7, Instr::Pop0);
    assert(h8 == lower_loop(cond, update, body, g));
    lemma_close(added(g, h8), h8.sites as int, o4);
}

/// The code of statements in order is complete in itself.
pub proof fn lemma_stmts_labels(body: Seq<Stmt>, from: int, keep: bool, g: Gen)
    requires
        lower_stmts(body, from, keep, g).sites <= usize::MAX,
    ensures
        follows(g, lower_stmts(body, from, keep, g)),
        seg_ok(
            added(g, lower_stmts(body, from, keep, g)),
            lower_stmts(body, from, keep, g).sites as int,
            closed(g.sites),
        ),
    decreases body, body.len() - from,
{
    let o = closed(g.sites);
    lemma_start(g, o);
    if 0 <= from < body.len() {
        let h1 = lower_stmt(body[from], g);
        let h2 = if keep {
            emit(h1, Instr::Keep)
        } else {
            h1
        };
        lemma_stmt_sites(body[from], g);
        lemma_stmts_sites(body, from + 1, keep, h2);
        lemma_stmt_labels(body[from], g);
        if keep {
            lemma_emit(g, h1, Instr::Keep, o);
        }
        lemma_stmts_labels(body, from + 1, keep, h2);
        lemma_nested(g, h2, lower_stmts(body, from + 1, keep, h2), o);
    }
}

/// In the code of a program every label is defined once, and every branch
/// goes to a label that the code defines.
pub proof fn lemma_program_labels(program: Seq<Stmt>)
    requires
        lower_program(program).sites <= usize::MAX,
    ensures
        marks_distinct(program_code(program)),
        targets_marked(program_code(program)),
{
    let g0 = Gen { code: Seq::empty(), vars: Seq::empty(), sites: 0 };
    let g1 = emit(g0, Instr::Imm(0));
    let h = lower_program(program);
    let o = closed(0);
    lemma_start(g0, o);
    lemma_emit(g0, g0, Instr::Imm(0), o);
    lemma_stmts_labels(program, 0, false, g1);
    lemma_nested(g0, g1, h, o);
    let seg = added(g0, h);
    assert(seg == h.code);
    let pre = prologue(h.vars.len() as usize);
    let post = epilogue();
    let all = program_code(program);
    assert(all == pre + seg + post);
    assert forall|i: int, j: int|
        0 <= i < j < all.len() && (#[trigger] all[i]) is Mark && (#[trigger] all[j]) is Mark
        implies all[i] != all[j] by {
        assert(all[i] == seg[i - 6]);
        assert(all[j] == seg[j - 6]);
    }
    assert forall|i: int| 0 <= i < all.len() && target(#[trigger] all[i]) is Some implies has_mark(
        all,
        target(all[i])->0,
    ) by {
        assert(all[i] == seg[i - 6]);
        let l = target(seg[i - 6])->0;
        assert(jump_allowed(seg, l, h.sites as int, o));
        lemma_has_mark_right(pre, seg, l);
        lemma_has_mark_left(pre + seg, post, l);
    }
}

} // verus!
