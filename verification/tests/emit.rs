use lily::assembly;
use lily::emit::{emit_function, emit_program, emit_stack_note};
use lily::settings::Platform;

#[test]
fn emit_linux_return_42() {
    let program = assembly::Program {
        function: assembly::Function {
            name: "main".to_string(),
            instructions: vec![
                assembly::Instruction::Mov {
                    src: assembly::Operand::Imm(42),
                    dst: assembly::Operand::Reg(assembly::Reg::AX),
                },
                assembly::Instruction::Ret,
            ],
        },
    };
    let mut buf = String::new();
    emit_function(&mut buf, &program.function, Platform::Linux);
    emit_stack_note(&mut buf, Platform::Linux);
    let output = buf;
    assert!(output.contains(".globl main"));
    assert!(output.contains("main:"));
    assert!(output.contains("movl $42, %eax"));
    assert!(output.contains("ret"));
    assert!(output.contains(".note.GNU-stack"));
}

#[test]
fn emit_full_text_osx() {
    let program = assembly::Program {
        function: assembly::Function {
            name: "main".to_string(),
            instructions: vec![
                assembly::Instruction::AllocateStack(4),
                assembly::Instruction::Mov {
                    src: assembly::Operand::Imm(5),
                    dst: assembly::Operand::Stack(-4),
                },
                assembly::Instruction::Unary {
                    op: assembly::UnaryOp::Neg,
                    dst: assembly::Operand::Stack(-4),
                },
                assembly::Instruction::Unary {
                    op: assembly::UnaryOp::Not,
                    dst: assembly::Operand::Reg(assembly::Reg::R10),
                },
                assembly::Instruction::Mov {
                    src: assembly::Operand::Stack(-4),
                    dst: assembly::Operand::Reg(assembly::Reg::AX),
                },
                assembly::Instruction::Ret,
            ],
        },
    };
    let text = emit_program(&program, Platform::OsX);
    assert_eq!(
        text,
        "\n\t.globl _main\n_main:\n\tpushq %rbp\n\tmovq %rsp, %rbp\n\tsubq $4, %rsp\n\
         \tmovl $5, -4(%rbp)\n\tnegl -4(%rbp)\n\tnotl %r10d\n\tmovl -4(%rbp), %eax\n\
         \tmovq %rbp, %rsp\n\tpopq %rbp\n\tret\n"
    );
    assert!(!text.contains("GNU-stack"));
}
