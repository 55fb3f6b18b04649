use lily::assembly::{Function, Instruction, Operand, Program, Reg, UnaryOp};
use lily::instruction_fixup::fixup_program;

#[test]
fn fixup_stack_to_stack_mov() {
    let program = Program {
        function: Function {
            name: "main".to_string(),
            instructions: vec![
                Instruction::Mov {
                    src: Operand::Stack(-4),
                    dst: Operand::Stack(-8),
                },
                Instruction::Ret,
            ],
        },
    };
    let fixed = fixup_program(&program, 8);
    assert_eq!(
        fixed.function.instructions,
        vec![
            Instruction::AllocateStack(8),
            Instruction::Mov {
                src: Operand::Stack(-4),
                dst: Operand::Reg(Reg::R10),
            },
            Instruction::Mov {
                src: Operand::Reg(Reg::R10),
                dst: Operand::Stack(-8),
            },
            Instruction::Ret,
        ]
    );
}

#[test]
fn fixup_keeps_valid_instructions() {
    let program = Program {
        function: Function {
            name: "f".to_string(),
            instructions: vec![
                Instruction::Mov { src: Operand::Imm(1), dst: Operand::Stack(-4) },
                Instruction::Unary { op: UnaryOp::Neg, dst: Operand::Stack(-4) },
                Instruction::Mov { src: Operand::Stack(-4), dst: Operand::Reg(Reg::AX) },
            ],
        },
    };
    let fixed = fixup_program(&program, 4);
    assert_eq!(fixed.function.name, "f");
    assert_eq!(
        fixed.function.instructions,
        vec![
            Instruction::AllocateStack(4),
            Instruction::Mov { src: Operand::Imm(1), dst: Operand::Stack(-4) },
            Instruction::Unary { op: UnaryOp::Neg, dst: Operand::Stack(-4) },
            Instruction::Mov { src: Operand::Stack(-4), dst: Operand::Reg(Reg::AX) },
        ]
    );
}
