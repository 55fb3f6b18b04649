use lily::assembly::{Function, Instruction, Operand, Program, Reg, UnaryOp};
use lily::replace_pseudos::{can_replace, replace_pseudos};

#[test]
fn replace_pseudos_basic() {
    let program = Program {
        function: Function {
            name: "main".to_string(),
            instructions: vec![
                Instruction::Mov {
                    src: Operand::Imm(5),
                    dst: Operand::Pseudo("tmp.0".to_string()),
                },
                Instruction::Unary {
                    op: UnaryOp::Neg,
                    dst: Operand::Pseudo("tmp.0".to_string()),
                },
                Instruction::Mov {
                    src: Operand::Pseudo("tmp.0".to_string()),
                    dst: Operand::Reg(Reg::AX),
                },
                Instruction::Ret,
            ],
        },
    };
    let (fixed, stack_size) = replace_pseudos(&program);
    assert_eq!(stack_size, 4);
    assert_eq!(
        fixed.function.instructions,
        vec![
            Instruction::Mov {
                src: Operand::Imm(5),
                dst: Operand::Stack(-4),
            },
            Instruction::Unary {
                op: UnaryOp::Neg,
                dst: Operand::Stack(-4),
            },
            Instruction::Mov {
                src: Operand::Stack(-4),
                dst: Operand::Reg(Reg::AX),
            },
            Instruction::Ret,
        ]
    );
}

#[test]
fn replace_pseudos_distinct_slots_in_first_occurrence_order() {
    let program = Program {
        function: Function {
            name: "main".to_string(),
            instructions: vec![
                Instruction::Mov {
                    src: Operand::Pseudo("b".to_string()),
                    dst: Operand::Pseudo("a".to_string()),
                },
                Instruction::Mov {
                    src: Operand::Pseudo("a".to_string()),
                    dst: Operand::Pseudo("c".to_string()),
                },
                Instruction::Unary {
                    op: UnaryOp::Not,
                    dst: Operand::Pseudo("b".to_string()),
                },
            ],
        },
    };
    assert!(can_replace(&program.function.instructions));
    let (fixed, stack_size) = replace_pseudos(&program);
    assert_eq!(stack_size, 12);
    assert_eq!(fixed.function.name, "main");
    assert_eq!(
        fixed.function.instructions,
        vec![
            Instruction::Mov { src: Operand::Stack(-4), dst: Operand::Stack(-8) },
            Instruction::Mov { src: Operand::Stack(-8), dst: Operand::Stack(-12) },
            Instruction::Unary { op: UnaryOp::Not, dst: Operand::Stack(-4) },
        ]
    );
}

#[test]
fn can_replace_refuses_allocated_stack() {
    let instructions = vec![Instruction::AllocateStack(4), Instruction::Ret];
    assert!(!can_replace(&instructions));
    assert!(can_replace(&vec![Instruction::Ret]));
}

#[test]
fn replace_pseudos_on_its_output_changes_nothing() {
    let program = Program {
        function: Function {
            name: "main".to_string(),
            instructions: vec![
                Instruction::Mov { src: Operand::Imm(1), dst: Operand::Pseudo("t".to_string()) },
                Instruction::Unary { op: UnaryOp::Neg, dst: Operand::Pseudo("t".to_string()) },
                Instruction::Ret,
            ],
        },
    };
    let (once, size) = replace_pseudos(&program);
    assert_eq!(size, 4);
    let (twice, size2) = replace_pseudos(&once);
    assert_eq!(twice, once);
    assert_eq!(size2, 0);
}
