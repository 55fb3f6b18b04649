use lily::ast;
use lily::tacky;
use lily::tacky_gen::generate;
use lily::unique_ids::{make_temporary, reset};

#[test]
fn tacky_gen_nested_unary() {
    let mut counter: usize = 7;
    reset(&mut counter);
    assert_eq!(counter, 0);
    // ~(-42)
    let program = ast::Program {
        function: ast::FunctionDefinition {
            name: "main".to_string(),
            body: ast::Statement::Return(ast::Exp::Unary(
                ast::UnaryOp::Complement,
                Box::new(ast::Exp::Unary(
                    ast::UnaryOp::Negate,
                    Box::new(ast::Exp::Constant(42)),
                )),
            )),
        },
    };
    let tacky_prog = generate(&program, &mut counter);
    assert_eq!(counter, 2);
    assert_eq!(
        tacky_prog.function.body,
        vec![
            tacky::Instruction::Unary {
                op: tacky::UnaryOp::Negate,
                src: tacky::Val::Constant(42),
                dst: tacky::Val::Var("tmp.0".to_string()),
            },
            tacky::Instruction::Unary {
                op: tacky::UnaryOp::Complement,
                src: tacky::Val::Var("tmp.0".to_string()),
                dst: tacky::Val::Var("tmp.1".to_string()),
            },
            tacky::Instruction::Return(tacky::Val::Var("tmp.1".to_string())),
        ]
    );
}

#[test]
fn tacky_gen_constant_needs_no_temporary() {
    let program = ast::Program {
        function: ast::FunctionDefinition {
            name: "f".to_string(),
            body: ast::Statement::Return(ast::Exp::Constant(3)),
        },
    };
    let mut counter: usize = 0;
    let tacky_prog = generate(&program, &mut counter);
    assert_eq!(counter, 0);
    assert_eq!(tacky_prog.function.name, "f");
    assert_eq!(
        tacky_prog.function.body,
        vec![tacky::Instruction::Return(tacky::Val::Constant(3))]
    );
}

#[test]
fn temporaries_are_numbered_in_turn() {
    let mut counter: usize = 0;
    assert_eq!(make_temporary(&mut counter), "tmp.0");
    assert_eq!(make_temporary(&mut counter), "tmp.1");
    counter = 41;
    assert_eq!(make_temporary(&mut counter), "tmp.41");
    assert_eq!(counter, 42);
}

#[test]
fn tacky_gen_counter_carries_across_calls() {
    let program = ast::Program {
        function: ast::FunctionDefinition {
            name: "main".to_string(),
            body: ast::Statement::Return(ast::Exp::Unary(
                ast::UnaryOp::Negate,
                Box::new(ast::Exp::Constant(1)),
            )),
        },
    };
    let mut counter: usize = 0;
    let first = generate(&program, &mut counter);
    let second = generate(&program, &mut counter);
    assert_eq!(counter, 2);
    assert_eq!(
        first.function.body[0],
        tacky::Instruction::Unary {
            op: tacky::UnaryOp::Negate,
            src: tacky::Val::Constant(1),
            dst: tacky::Val::Var("tmp.0".to_string()),
        }
    );
    assert_eq!(
        second.function.body,
        vec![
            tacky::Instruction::Unary {
                op: tacky::UnaryOp::Negate,
                src: tacky::Val::Constant(1),
                dst: tacky::Val::Var("tmp.1".to_string()),
            },
            tacky::Instruction::Return(tacky::Val::Var("tmp.1".to_string())),
        ]
    );
    reset(&mut counter);
    let third = generate(&program, &mut counter);
    assert_eq!(third, first);
}
