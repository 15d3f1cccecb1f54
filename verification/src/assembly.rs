//! The instructions that the code generator emits, and their text.

use crate::text::decimal;
use crate::text::join_lines;
use crate::text::push_decimal;
use crate::text::push_signed_decimal;
use crate::text::push_text;
use crate::text::signed_decimal;
use vstd::prelude::*;

verus! {

/// The condition that a comparison sets its result by.
#[derive(Debug, PartialEq, Eq, Clone, Copy)]
pub enum Cond {
    Eq,
    Ne,
    Gt,
    Ge,
    Lt,
    Le,
}

/// The places in a piece of control flow that a branch can go to.
#[derive(Debug, PartialEq, Eq, Clone, Copy)]
pub enum Place {
    /// Where an `if` goes on when its condition fails.
    Else,
    /// The end of an `if`.
    End,
    /// The test of a loop's condition.
    Begin,
    /// The end of a loop.
    Done,
    /// The start of the multiplication loop of a `^`.
    Pow,
    /// The end of the multiplication loop of a `^`.
    PowEnd,
}

/// A label: a place in the piece of control flow with the given number.
#[derive(Debug, PartialEq, Eq, Clone, Copy)]
pub struct Label {
    pub place: Place,
    pub site: usize,
}

/// One line of assembly. Operands live on a stack of 16-byte slots; `x0` and
/// `x1` hold what was popped, `x0` what is pushed.
#[derive(Debug, PartialEq, Eq, Clone, Copy)]
pub enum Instr {
    /// Declares the entry point.
    Global,
    /// The entry point.
    Entry,
    /// Saves the caller's frame.
    FrameSave,
    /// Starts this frame.
    FrameSet,
    /// Puts the number of variable slots in `x9`.
    Count(usize),
    /// Reserves `x9` slots of 16 bytes below the frame.
    Reserve,
    /// Drops everything below the frame.
    FrameRestore,
    /// Restores the caller's frame.
    FramePop,
    /// Returns `x0`.
    Ret,
    /// Pushes `x0`.
    Push,
    /// Pops into `x0`.
    Pop0,
    /// Pops into `x1`.
    Pop1,
    /// Copies the top of the stack into `x0`.
    Peek,
    /// Copies `x0` over the top of the stack.
    Keep,
    /// Puts a number in `x0`.
    Imm(i32),
    /// Negates `x0`.
    Neg,
    /// Adds `x1` to `x0`.
    Add,
    /// Subtracts `x1` from `x0`.
    Sub,
    /// Multiplies `x0` by `x1`.
    Mul,
    /// Divides `x0` by `x1`. The machine gives 0 where `x1` is zero; the
    /// evaluator reports `DivisionByZero` there.
    Sdiv,
    /// Compares `x0` with `x1`.
    Cmp,
    /// Compares `x0` with zero.
    CmpZero,
    /// Sets `x0` to 1 where the last comparison holds, else to 0.
    SetIf(Cond),
    /// Starts a product at 1 in `x2`.
    PowInit,
    /// Multiplies the product by `x0`.
    PowMul,
    /// Counts `x1` down by one.
    PowCount,
    /// Moves the product to `x0`.
    PowResult,
    /// Puts the number of a variable's slot, counted from 1, in `x9`.
    Slot(usize),
    /// Turns the slot number in `x9` into the slot's address.
    Addr,
    /// Loads `x0` from the slot at `x9`.
    LoadSlot,
    /// Stores `x0` to the slot at `x9`.
    StoreSlot,
    /// Defines a label.
    Mark(Label),
    /// Branches always.
    Jump(Label),
    /// Branches where the last comparison found equal.
    JumpEq(Label),
    /// Branches where the last count did not reach zero.
    JumpNe(Label),
    /// Branches where `x1` is zero.
    JumpIfZero(Label),
}

/// How a condition is written.
pub open spec fn cond_text(c: Cond) -> Seq<char> {
    match c {
        Cond::Eq => "eq"@,
        Cond::Ne => "ne"@,
        Cond::Gt => "gt"@,
        Cond::Ge => "ge"@,
        Cond::Lt => "lt"@,
        Cond::Le => "le"@,
    }
}

/// How the place of a label is written.
pub open spec fn place_text(p: Place) -> Seq<char> {
    match p {
        Place::Else => ".Lelse"@,
        Place::End => ".Lend"@,
        Place::Begin => ".Lbegin"@,
        Place::Done => ".Ldone"@,
        Place::Pow => ".Lpow"@,
        Place::PowEnd => ".Lpowend"@,
    }
}

/// The name of a label: its place, then its site's number.
pub open spec fn label_text(l: Label) -> Seq<char> {
    place_text(l.place) + decimal(l.site as nat)
}

/// The line of assembly that an instruction is written as.
pub open spec fn instr_text(i: Instr) -> Seq<char> {
    match i {
        Instr::Global => "    .globl _main"@,
        Instr::Entry => "_main:"@,
        Instr::FrameSave => "    stp x29, x30, [sp, #-16]!"@,
        Instr::FrameSet => "    mov x29, sp"@,
        Instr::Count(n) => "    mov x9, #"@ + decimal(n as nat),
        Instr::Reserve => "    sub sp, sp, x9, lsl #4"@,
        Instr::FrameRestore => "    mov sp, x29"@,
        Instr::FramePop => "    ldp x29, x30, [sp], #16"@,
        Instr::Ret => "    ret"@,
        Instr::Push => "    str x0, [sp, #-16]!"@,
        Instr::Pop0 => "    ldr x0, [sp], #16"@,
        Instr::Pop1 => "    ldr x1, [sp], #16"@,
        Instr::Peek => "    ldr x0, [sp]"@,
        Instr::Keep => "    str x0, [sp]"@,
        Instr::Imm(n) => "    mov x0, #"@ + signed_decimal(n as int),
        Instr::Neg => "    neg x0, x0"@,
        Instr::Add => "    add x0, x0, x1"@,
        Instr::Sub => "    sub x0, x0, x1"@,
        Instr::Mul => "    mul x0, x0, x1"@,
        Instr::Sdiv => "    sdiv x0, x0, x1"@,
        Instr::Cmp => "    cmp x0, x1"@,
        Instr::CmpZero => "    cmp x0, #0"@,
        Instr::SetIf(c) => "    cset x0, "@ + cond_text(c),
        Instr::PowInit => "    mov x2, #1"@,
        Instr::PowMul => "    mul x2, x2, x0"@,
        Instr::PowCount => "    subs x1, x1, #1"@,
        Instr::PowResult => "    mov x0, x2"@,
        Instr::Slot(n) => "    mov x9, #"@ + decimal(n as nat),
        Instr::Addr => "    sub x9, x29, x9, lsl #4"@,
        Instr::LoadSlot => "    ldr x0, [x9]"@,
        Instr::StoreSlot => "    str x0, [x9]"@,
        Instr::Mark(l) => label_text(l) + ":"@,
        Instr::Jump(l) => "    b "@ + label_text(l),
        Instr::JumpEq(l) => "    b.eq "@ + label_text(l),
        Instr::JumpNe(l) => "    b.ne "@ + label_text(l),
        Instr::JumpIfZero(l) => "    cbz x1, "@ + label_text(l),
    }
}

/// The lines of a run of instructions, in order.
pub open spec fn listing(code: Seq<Instr>) -> Seq<Seq<char>> {
    Seq::new(code.len(), |i: int| instr_text(code[i]))
}

/// The text of a run of instructions: one line each, a line feed between
/// each two.
pub open spec fn assembly_text(code: Seq<Instr>) -> Seq<char> {
    join_lines(listing(code))
}

fn push_cond(s: &mut String, c: Cond)
    ensures
        final(s)@ == old(s)@ + cond_text(c),
{
    match c {
        Cond::Eq => push_text(s, "eq"),
        Cond::Ne => push_text(s, "ne"),
        Cond::Gt => push_text(s, "gt"),
        Cond::Ge => push_text(s, "ge"),
        Cond::Lt => push_text(s, "lt"),
        Cond::Le => push_text(s, "le"),
    }
}

fn push_label(s: &mut String, l: Label)
    ensures
        final(s)@ == old(s)@ + label_text(l),
{
    match l.place {
        Place::Else => push_text(s, ".Lelse"),
        Place::End => push_text(s, ".Lend"),
        Place::Begin => push_text(s, ".Lbegin"),
        Place::Done => push_text(s, ".Ldone"),
        Place::Pow => push_text(s, ".Lpow"),
        Place::PowEnd => push_text(s, ".Lpowend"),
    }
    push_decimal(s, l.site as u64);
    assert(s@ == old(s)@ + (place_text(l.place) + decimal(l.site as nat)));
}

/// Appends the line of an instruction.
pub fn push_instr(s: &mut String, i: Instr)
    ensures
        final(s)@ == old(s)@ + instr_text(i),
{
    match i {
        Instr::Global => push_text(s, "    .globl _main"),
        Instr::Entry => push_text(s, "_main:"),
        Instr::FrameSave => push_text(s, "    stp x29, x30, [sp, #-16]!"),
        Instr::FrameSet => push_text(s, "    mov x29, sp"),
        Instr::Count(n) => {
            push_text(s, "    mov x9, #");
            push_decimal(s, n as u64);
            assert(s@ == old(s)@ + ("    mov x9, #"@ + decimal(n as nat)));
        },
        Instr::Reserve => push_text(s, "    sub sp, sp, x9, lsl #4"),
        Instr::FrameRestore => push_text(s, "    mov sp, x29"),
        Instr::FramePop => push_text(s, "    ldp x29, x30, [sp], #16"),
        Instr::Ret => push_text(s, "    ret"),
        Instr::Push => push_text(s, "    str x0, [sp, #-16]!"),
        Instr::Pop0 => push_text(s, "    ldr x0, [sp], #16"),
        Instr::Pop1 => push_text(s, "    ldr x1, [sp], #16"),
        Instr::Peek => push_text(s, "    ldr x0, [sp]"),
        Instr::Keep => push_text(s, "    str x0, [sp]"),
        Instr::Imm(n) => {
            push_text(s, "    mov x0, #");
            push_signed_decimal(s, n);
            assert(s@ == old(s)@ + ("    mov x0, #"@ + signed_decimal(n as int)));
        },
        Instr::Neg => push_text(s, "    neg x0, x0"),
        Instr::Add => push_text(s, "    add x0, x0, x1"),
        Instr::Sub => push_text(s, "    sub x0, x0, x1"),
        Instr::Mul => push_text(s, "    mul x0, x0, x1"),
        Instr::Sdiv => push_text(s, "    sdiv x0, x0, x1"),
        Instr::Cmp => push_text(s, "    cmp x0, x1"),
        Instr::CmpZero => push_text(s, "    cmp x0, #0"),
        Instr::SetIf(c) => {
            push_text(s, "    cset x0, ");
            push_cond(s, c);
            assert(s@ == old(s)@ + ("    cset x0, "@ + cond_text(c)));
        },
        Instr::PowInit => push_text(s, "    mov x2, #1"),
        Instr::PowMul => push_text(s, "    mul x2, x2, x0"),
        Instr::PowCount => push_text(s, "    subs x1, x1, #1"),
        Instr::PowResult => push_text(s, "    mov x0, x2"),
        Instr::Slot(n) => {
            push_text(s, "    mov x9, #");
            push_decimal(s, n as u64);
            assert(s@ == old(s)@ + ("    mov x9, #"@ + decimal(n as nat)));
        },
        Instr::Addr => push_text(s, "    sub x9, x29, x9, lsl #4"),
        Instr::LoadSlot => push_text(s, "    ldr x0, [x9]"),
        Instr::StoreSlot => push_text(s, "    str x0, [x9]"),
        Instr::Mark(l) => {
            push_label(s, l);
            push_text(s, ":");
            assert(s@ == old(s)@ + (label_text(l) + ":"@));
        },
        Instr::Jump(l) => {
            push_text(s, "    b ");
            push_label(s, l);
            assert(s@ == old(s)@ + ("    b "@ + label_text(l)));
        },
        Instr::JumpEq(l) => {
            push_text(s, "    b.eq ");
            push_label(s, l);
            assert(s@ == old(s)@ + ("    b.eq "@ + label_text(l)));
        },
        Instr::JumpNe(l) => {
            push_text(s, "    b.ne ");
            push_label(s, l);
            assert(s@ == old(s)@ + ("    b.ne "@ + label_text(l)));
        },
        Instr::JumpIfZero(l) => {
            push_text(s, "    cbz x1, ");
            push_label(s, l);
            assert(s@ == old(s)@ + ("    cbz x1, "@ + label_text(l)));
        },
    }
}

/// The text of a run of instructions.
pub fn print(code: &Vec<Instr>) -> (text: String)
    ensures
        text@ == assembly_text(code@),
{
    let mut text = String::new();
    let mut i: usize = 0;
    while i < code.len()
        invariant
            i <= code.len(),
            text@ == join_lines(listing(code@).take(i as int)),
        decreases code.len() - i,
    {
        let ghost lines = listing(code@);
        let ghost before = lines.take(i as int);
        let ghost after = lines.take(i + 1);
        assert(after.drop_last() == before);
        assert(after.last() == instr_text(code@[i as int]));
        if i > 0 {
            text.push('\n');
            assert(before.len() > 0);
        }
        push_instr(&mut text, code[i]);
        assert(text@ == join_lines(after)) by {
            if i > 0 {
                assert(text@ == join_lines(before) + seq!['\n'] + after.last());
            } else {
                assert(join_lines(before) == Seq::<char>::empty());
                assert(text@ == after[0]);
            }
        }
        i += 1;
    }
    assert(listing(code@).take(code.len() as int) == listing(code@));
    text
}

} // verus!
