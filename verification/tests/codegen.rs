use lily::assembly;
use lily::codegen::generate;
use lily::tacky;

#[test]
fn codegen_return_42() {
    let program = tacky::Program {
        function: tacky::Function {
            name: "main".to_string(),
            body: vec![tacky::Instruction::Return(tacky::Val::Constant(42))],
        },
    };
    let lowered = generate(&program);
    assert_eq!(lowered.function.name, "main");
    assert_eq!(
        lowered.function.instructions,
        vec![
            assembly::Instruction::Mov {
                src: assembly::Operand::Imm(42),
                dst: assembly::Operand::Reg(assembly::Reg::AX),
            },
            assembly::Instruction::Ret,
        ]
    );
}

#[test]
fn codegen_unary_negate() {
    let program = tacky::Program {
        function: tacky::Function {
            name: "main".to_string(),
            body: vec![
                tacky::Instruction::Unary {
                    op: tacky::UnaryOp::Negate,
                    src: tacky::Val::Constant(5),
                    dst: tacky::Val::Var("tmp.0".to_string()),
                },
                tacky::Instruction::Return(tacky::Val::Var("tmp.0".to_string())),
            ],
        },
    };
    let lowered = generate(&program);
    assert_eq!(
        lowered.function.instructions,
        vec![
            assembly::Instruction::Mov {
                src: assembly::Operand::Imm(5),
                dst: assembly::Operand::Pseudo("tmp.0".to_string()),
            },
            assembly::Instruction::Unary {
                op: assembly::UnaryOp::Neg,
                dst: assembly::Operand::Pseudo("tmp.0".to_string()),
            },
            assembly::Instruction::Mov {
                src: assembly::Operand::Pseudo("tmp.0".to_string()),
                dst: assembly::Operand::Reg(assembly::Reg::AX),
            },
            assembly::Instruction::Ret,
        ]
    );
}

#[test]
fn codegen_complement_is_not() {
    let program = tacky::Program {
        function: tacky::Function {
            name: "main".to_string(),
            body: vec![tacky::Instruction::Unary {
                op: tacky::UnaryOp::Complement,
                src: tacky::Val::Var("a".to_string()),
                dst: tacky::Val::Var("b".to_string()),
            }],
        },
    };
    let lowered = generate(&program);
    assert_eq!(
        lowered.function.instructions,
        vec![
            assembly::Instruction::Mov {
                src: assembly::Operand::Pseudo("a".to_string()),
                dst: assembly::Operand::Pseudo("b".to_string()),
            },
            assembly::Instruction::Unary {
                op: assembly::UnaryOp::Not,
                dst: assembly::Operand::Pseudo("b".to_string()),
            },
        ]
    );
}

#[test]
fn codegen_of_joined_bodies_is_joined() {
    let ret = tacky::Instruction::Return(tacky::Val::Var("x".to_string()));
    let un = tacky::Instruction::Unary {
        op: tacky::UnaryOp::Negate,
        src: tacky::Val::Constant(3),
        dst: tacky::Val::Var("x".to_string()),
    };
    let prog = |body: Vec<tacky::Instruction>| tacky::Program {
        function: tacky::Function { name: "m".to_string(), body },
    };
    let whole = generate(&prog(vec![un.clone(), ret.clone()])).function.instructions;
    let mut parts = generate(&prog(vec![un])).function.instructions;
    parts.extend(generate(&prog(vec![ret])).function.instructions);
    assert_eq!(whole, parts);
}
