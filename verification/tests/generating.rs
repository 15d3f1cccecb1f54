use parser::assembly::print;
use parser::assembly::Cond;
use parser::assembly::Instr;
use parser::assembly::Label;
use parser::assembly::Place;
use parser::codegen::CodeGenerator;
use parser::error::CompilerError;
use parser::lexer::Lexer;
use parser::parser::Parser;
use parser::parser::SyntaxError;
use parser::pipeline::compile;

fn lines(source: &str) -> Vec<String> {
    compile(source).unwrap().split('\n').map(|l| l.to_string()).collect()
}

fn framed(slots: usize, body: &[&str]) -> Vec<String> {
    let mut all = vec![
        "    .globl _main".to_string(),
        "_main:".to_string(),
        "    stp x29, x30, [sp, #-16]!".to_string(),
        "    mov x29, sp".to_string(),
        format!("    mov x9, #{}", slots),
        "    sub sp, sp, x9, lsl #4".to_string(),
        "    mov x0, #0".to_string(),
    ];
    for l in body {
        all.push(l.to_string());
    }
    all.push("    mov sp, x29".to_string());
    all.push("    ldp x29, x30, [sp], #16".to_string());
    all.push("    ret".to_string());
    all
}

const PUSH: &str = "    str x0, [sp, #-16]!";
const POP0: &str = "    ldr x0, [sp], #16";
const POP1: &str = "    ldr x1, [sp], #16";

#[test]
fn sum_of_two_literals() {
    assert_eq!(
        lines("1+2;"),
        framed(
            0,
            &[
                "    mov x0, #1",
                PUSH,
                "    mov x0, #2",
                PUSH,
                POP1,
                POP0,
                "    add x0, x0, x1",
                PUSH,
                POP0,
            ]
        )
    );
}

#[test]
fn the_text_has_no_line_feed_at_its_end() {
    let text = compile("1;").unwrap();
    assert!(text.starts_with("    .globl _main\n_main:\n"));
    assert!(text.ends_with("\n    ret"));
}

#[test]
fn arithmetic_instructions() {
    let tail = |op: &str| {
        framed(0, &["    mov x0, #6", PUSH, "    mov x0, #3", PUSH, POP1, POP0, op, PUSH, POP0])
    };
    assert_eq!(lines("6-3;"), tail("    sub x0, x0, x1"));
    assert_eq!(lines("6*3;"), tail("    mul x0, x0, x1"));
    assert_eq!(lines("6/3;"), tail("    sdiv x0, x0, x1"));
}

#[test]
fn comparisons_set_one_or_zero() {
    let tail = |cond: &str| {
        let set = format!("    cset x0, {}", cond);
        framed(
            0,
            &[
                "    mov x0, #6",
                PUSH,
                "    mov x0, #3",
                PUSH,
                POP1,
                POP0,
                "    cmp x0, x1",
                set.as_str(),
                PUSH,
                POP0,
            ],
        )
    };
    assert_eq!(lines("6==3;"), tail("eq"));
    assert_eq!(lines("6!=3;"), tail("ne"));
    assert_eq!(lines("6>3;"), tail("gt"));
    assert_eq!(lines("6>=3;"), tail("ge"));
    assert_eq!(lines("6<3;"), tail("lt"));
    assert_eq!(lines("6<=3;"), tail("le"));
}

#[test]
fn unary_minus_negates_what_it_pops() {
    assert_eq!(
        lines("-5;"),
        framed(0, &["    mov x0, #5", PUSH, POP0, "    neg x0, x0", PUSH, POP0])
    );
}

#[test]
fn pow_is_a_counted_loop() {
    assert_eq!(
        lines("2^3;"),
        framed(
            0,
            &[
                "    mov x0, #2",
                PUSH,
                "    mov x0, #3",
                PUSH,
                POP1,
                POP0,
                "    mov x2, #1",
                "    cbz x1, .Lpowend0",
                ".Lpow0:",
                "    mul x2, x2, x0",
                "    subs x1, x1, #1",
                "    b.ne .Lpow0",
                ".Lpowend0:",
                "    mov x0, x2",
                PUSH,
                POP0,
            ]
        )
    );
}

#[test]
fn variables_get_slots_in_the_order_they_are_met() {
    assert_eq!(
        lines("a=1; b=a;"),
        framed(
            2,
            &[
                "    mov x0, #1",
                PUSH,
                "    ldr x0, [sp]",
                "    mov x9, #1",
                "    sub x9, x29, x9, lsl #4",
                "    str x0, [x9]",
                POP0,
                "    mov x9, #1",
                "    sub x9, x29, x9, lsl #4",
                "    ldr x0, [x9]",
                PUSH,
                "    ldr x0, [sp]",
                "    mov x9, #2",
                "    sub x9, x29, x9, lsl #4",
                "    str x0, [x9]",
                POP0,
            ]
        )
    );
}

#[test]
fn if_branches_over_its_block() {
    assert_eq!(
        lines("if (1) { 2; }"),
        framed(
            0,
            &[
                "    mov x0, #0",
                "    mov x0, #1",
                PUSH,
                POP0,
                "    cmp x0, #0",
                "    b.eq .Lelse0",
                "    mov x0, #2",
                PUSH,
                POP0,
                "    b .Lend0",
                ".Lelse0:",
                "    mov x0, #0",
                ".Lend0:",
            ]
        )
    );
}

#[test]
fn while_tests_then_branches_back() {
    assert_eq!(
        lines("while (1) { 2; }"),
        framed(
            0,
            &[
                "    mov x0, #0",
                PUSH,
                ".Lbegin0:",
                "    mov x0, #1",
                PUSH,
                POP0,
                "    cmp x0, #0",
                "    b.eq .Ldone0",
                "    mov x0, #2",
                PUSH,
                POP0,
                "    str x0, [sp]",
                "    b .Lbegin0",
                ".Ldone0:",
                POP0,
            ]
        )
    );
}

#[test]
fn for_runs_its_update_after_its_block() {
    assert_eq!(
        lines("for (1; 2; 3) { }"),
        framed(
            0,
            &[
                "    mov x0, #1",
                PUSH,
                ".Lbegin0:",
                "    mov x0, #2",
                PUSH,
                POP0,
                "    cmp x0, #0",
                "    b.eq .Ldone0",
                "    mov x0, #3",
                PUSH,
                POP1,
                "    b .Lbegin0",
                ".Ldone0:",
                POP0,
            ]
        )
    );
    assert_eq!(lines("for (;;) { 1; }"), framed(0, &["    mov x0, #0", PUSH, POP0, "    mov x0, #0"]));
}

#[test]
fn block_starts_from_zero() {
    assert_eq!(lines("{ }"), framed(0, &["    mov x0, #0"]));
    assert_eq!(lines("{ 4; }"), framed(0, &["    mov x0, #0", "    mov x0, #4", PUSH, POP0]));
}

#[test]
fn every_piece_of_control_flow_has_its_own_labels() {
    let text = lines("if (1) { if (2) { } } while (3) { 2^2; } if (4) { } for (;5;) { }");
    let marks: Vec<&String> = text.iter().filter(|l| l.ends_with(':') && l.starts_with(".L")).collect();
    assert_eq!(
        marks,
        vec![
            ".Lelse1:",
            ".Lend1:",
            ".Lelse0:",
            ".Lend0:",
            ".Lbegin2:",
            ".Lpow3:",
            ".Lpowend3:",
            ".Ldone2:",
            ".Lelse4:",
            ".Lend4:",
            ".Lbegin5:",
            ".Ldone5:",
        ]
    );
    for (i, a) in marks.iter().enumerate() {
        for b in marks.iter().skip(i + 1) {
            assert_ne!(a, b);
        }
    }
}

#[test]
fn branches_go_to_the_labels_of_their_own_piece() {
    let text = lines("if (2^2) { while (3^3) { } } for (;4^4;5^5) { }");
    let own = |l: &str| text.iter().filter(|t| t.as_str() == l).count();
    assert_eq!(own("    b.eq .Lelse0"), 1);
    assert_eq!(own("    b .Lend0"), 1);
    assert_eq!(own("    b.eq .Ldone2"), 1);
    assert_eq!(own("    b .Lbegin2"), 1);
    assert_eq!(own("    b.eq .Ldone4"), 1);
    assert_eq!(own("    b .Lbegin4"), 1);
    for l in text.iter() {
        let target = if let Some(t) = l.strip_prefix("    b.eq ") {
            Some(t)
        } else if let Some(t) = l.strip_prefix("    b.ne ") {
            Some(t)
        } else if let Some(t) = l.strip_prefix("    cbz x1, ") {
            Some(t)
        } else {
            l.strip_prefix("    b ")
        };
        if let Some(t) = target {
            assert_eq!(text.iter().filter(|m| **m == format!("{}:", t)).count(), 1);
        }
    }
}

#[test]
fn negative_and_large_literals() {
    assert_eq!(print(&vec![Instr::Imm(-2147483648)]), "    mov x0, #-2147483648");
    assert_eq!(print(&vec![Instr::Imm(2147483647)]), "    mov x0, #2147483647");
    assert_eq!(print(&vec![Instr::Imm(0)]), "    mov x0, #0");
    assert_eq!(print(&vec![Instr::Imm(-7), Instr::Ret]), "    mov x0, #-7\n    ret");
    assert_eq!(print(&vec![]), "");
}

#[test]
fn text_of_every_instruction() {
    let l = Label { place: Place::Done, site: 120 };
    let all = vec![
        Instr::Global,
        Instr::Entry,
        Instr::FrameSave,
        Instr::FrameSet,
        Instr::Count(12),
        Instr::Reserve,
        Instr::FrameRestore,
        Instr::FramePop,
        Instr::Ret,
        Instr::Push,
        Instr::Pop0,
        Instr::Pop1,
        Instr::Peek,
        Instr::Keep,
        Instr::Imm(10),
        Instr::Neg,
        Instr::Add,
        Instr::Sub,
        Instr::Mul,
        Instr::Sdiv,
        Instr::Cmp,
        Instr::CmpZero,
        Instr::SetIf(Cond::Ge),
        Instr::PowInit,
        Instr::PowMul,
        Instr::PowCount,
        Instr::PowResult,
        Instr::Slot(305),
        Instr::Addr,
        Instr::LoadSlot,
        Instr::StoreSlot,
        Instr::Mark(l),
        Instr::Jump(l),
        Instr::JumpEq(Label { place: Place::Else, site: 0 }),
        Instr::JumpNe(Label { place: Place::Pow, site: 9 }),
        Instr::JumpIfZero(Label { place: Place::PowEnd, site: 10 }),
        Instr::Jump(Label { place: Place::End, site: 1 }),
        Instr::Jump(Label { place: Place::Begin, site: 2 }),
    ];
    let expected = [
        "    .globl _main",
        "_main:",
        "    stp x29, x30, [sp, #-16]!",
        "    mov x29, sp",
        "    mov x9, #12",
        "    sub sp, sp, x9, lsl #4",
        "    mov sp, x29",
        "    ldp x29, x30, [sp], #16",
        "    ret",
        "    str x0, [sp, #-16]!",
        "    ldr x0, [sp], #16",
        "    ldr x1, [sp], #16",
        "    ldr x0, [sp]",
        "    str x0, [sp]",
        "    mov x0, #10",
        "    neg x0, x0",
        "    add x0, x0, x1",
        "    sub x0, x0, x1",
        "    mul x0, x0, x1",
        "    sdiv x0, x0, x1",
        "    cmp x0, x1",
        "    cmp x0, #0",
        "    cset x0, ge",
        "    mov x2, #1",
        "    mul x2, x2, x0",
        "    subs x1, x1, #1",
        "    mov x0, x2",
        "    mov x9, #305",
        "    sub x9, x29, x9, lsl #4",
        "    ldr x0, [x9]",
        "    str x0, [x9]",
        ".Ldone120:",
        "    b .Ldone120",
        "    b.eq .Lelse0",
        "    b.ne .Lpow9",
        "    cbz x1, .Lpowend10",
        "    b .Lend1",
        "    b .Lbegin2",
    ];
    assert_eq!(print(&all), expected.join("\n"));
}

#[test]
fn a_generator_starts_afresh_for_each_program() {
    let program = |source: &str| Parser::new(Lexer::new(source).lex().unwrap()).parse().unwrap();
    let mut generator = CodeGenerator::new();
    let first = generator.generate(&program("x = 1; if (x) { }"));
    let second = generator.generate(&program("1;"));
    assert_eq!(second, CodeGenerator::new().generate(&program("1;")));
    assert_eq!(first, compile("x = 1; if (x) { }").unwrap());
    assert_ne!(first, second);
}

#[test]
fn compile_hands_on_the_first_error() {
    assert_eq!(compile("1 +"), Err(CompilerError::Syntax(SyntaxError::UnexpectedEof)));
    assert!(matches!(compile("1 + $"), Err(CompilerError::Lexical(_))));
}
