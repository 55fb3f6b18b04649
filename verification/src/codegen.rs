use vstd::prelude::*;

use crate::assembly;
use crate::assembly::{InstructionV, OperandV};
use crate::tacky;

verus! {

/// The operand for a TACKY value: a constant is an immediate, a variable a pseudo-register.
pub open spec fn spec_convert_val(v: tacky::ValV) -> OperandV {
    match v {
        tacky::ValV::Constant(i) => OperandV::Imm(i),
        tacky::ValV::Var(name) => OperandV::Pseudo(name),
    }
}

/// The assembly operator for a TACKY operator.
pub open spec fn spec_convert_op(op: tacky::UnaryOp) -> assembly::UnaryOp {
    match op {
        tacky::UnaryOp::Complement => assembly::UnaryOp::Not,
        tacky::UnaryOp::Negate => assembly::UnaryOp::Neg,
    }
}

/// The assembly for one TACKY instruction:
/// `Return(v)` is `Mov(v, AX); Ret`, and `Unary(op, src, dst)` is `Mov(src, dst); Unary(op, dst)`.
pub open spec fn spec_convert_instruction(i: tacky::InstructionV) -> Seq<InstructionV> {
    match i {
        tacky::InstructionV::Return(v) => seq![
            InstructionV::Mov { src: spec_convert_val(v), dst: OperandV::Reg(assembly::Reg::AX) },
            InstructionV::Ret,
        ],
        tacky::InstructionV::Unary { op, src, dst } => seq![
            InstructionV::Mov { src: spec_convert_val(src), dst: spec_convert_val(dst) },
            InstructionV::Unary { op: spec_convert_op(op), dst: spec_convert_val(dst) },
        ],
    }
}

/// The assembly for a sequence of TACKY instructions, each converted in turn.
pub open spec fn codegen_instrs(s: Seq<tacky::InstructionV>) -> Seq<InstructionV>
    decreases s.len(),
{
    if s.len() == 0 {
        seq![]
    } else {
        codegen_instrs(s.drop_last()) + spec_convert_instruction(s.last())
    }
}

/// The assembly function for a TACKY function.
pub open spec fn codegen_function(f: tacky::FunctionV) -> assembly::FunctionV {
    assembly::FunctionV { name: f.name, instructions: codegen_instrs(f.body) }
}

/// Convert a TACKY value to an assembly operand.
fn convert_val(val: &tacky::Val) -> (r: assembly::Operand)
    ensures
        r@ == spec_convert_val(val@),
{
    match val {
        tacky::Val::Constant(i) => assembly::Operand::Imm(*i),
        tacky::Val::Var(name) => assembly::Operand::Pseudo(name.clone()),
    }
}

/// Convert a TACKY unary operator to an assembly unary operator.
fn convert_op(op: &tacky::UnaryOp) -> (r: assembly::UnaryOp)
    ensures
        r == spec_convert_op(*op),
{
    match op {
        tacky::UnaryOp::Complement => assembly::UnaryOp::Not,
        tacky::UnaryOp::Negate => assembly::UnaryOp::Neg,
    }
}

/// Convert a single TACKY instruction to one or more assembly instructions.
fn convert_instruction(instr: &tacky::Instruction) -> (r: Vec<assembly::Instruction>)
    ensures
        assembly::instrs_view(r@) == spec_convert_instruction(instr@),
{
    let r = match instr {
        tacky::Instruction::Return(val) => {
            let asm_val = convert_val(val);
            vec![
                assembly::Instruction::Mov {
                    src: asm_val,
                    dst: assembly::Operand::Reg(assembly::Reg::AX),
                },
                assembly::Instruction::Ret,
            ]
        },
        tacky::Instruction::Unary { op, src, dst } => {
            let asm_op = convert_op(op);
            let asm_src = convert_val(src);
            let asm_dst = convert_val(dst);
            vec![
                assembly::Instruction::Mov { src: asm_src, dst: asm_dst.duplicate() },
                assembly::Instruction::Unary { op: asm_op, dst: asm_dst },
            ]
        },
    };
    assert(assembly::instrs_view(r@) =~= spec_convert_instruction(instr@));
    r
}

/// Convert a TACKY function to an assembly function.
fn convert_function(func: &tacky::Function) -> (r: assembly::Function)
    ensures
        r@ == codegen_function(func@),
{
    let mut instructions: Vec<assembly::Instruction> = Vec::new();
    let n = func.body.len();
    for i in 0..n
        invariant
            n == func.body@.len(),
            assembly::instrs_view(instructions@) == codegen_instrs(
                tacky::instrs_view(func.body@).take(i as int),
            ),
    {
        let ghost before = instructions@;
        let mut converted = convert_instruction(&func.body[i]);
        let ghost conv = converted@;
        instructions.append(&mut converted);
        proof {
            assembly::lemma_append_view(before, conv);
            let s = tacky::instrs_view(func.body@);
            assert(s.take(i + 1).drop_last() =~= s.take(i as int));
            assert(s.take(i + 1).last() == func.body@[i as int]@);
        }
    }
    assert(tacky::instrs_view(func.body@).take(n as int) =~= tacky::instrs_view(func.body@));
    assembly::Function { name: func.name.clone(), instructions }
}

/// Generate assembly IR from a TACKY program.
pub fn generate(program: &tacky::Program) -> (r: assembly::Program)
    ensures
        r@ == codegen_function(program@),
{
    assembly::Program { function: convert_function(&program.function) }
}

// ---------------------------------------------------------------------------
// Correctness: each TACKY variable lives in the pseudo-register of the same name.

/// Every TACKY variable set in `env` is set, to the same value, in its pseudo-register.
pub open spec fn related(env: Map<Seq<char>, int>, m: Map<assembly::Loc, int>) -> bool {
    forall|k: Seq<char>|
        #[trigger] env.dom().contains(k) ==> m.dom().contains(assembly::Loc::Pseudo(k)) && m[assembly::Loc::Pseudo(k)] == env[k]
}

/// The assembly run keeps up with the TACKY run: it returns what TACKY returns, and
/// runs on, related, while TACKY runs on. (A stuck TACKY run promises nothing.)
pub open spec fn refines(a: assembly::Outcome, t: tacky::Outcome) -> bool {
    match t {
        tacky::Outcome::Running(env) => a matches assembly::Outcome::Running(m) && related(env, m),
        tacky::Outcome::Returned(v) => a == assembly::Outcome::Returned(v),
        tacky::Outcome::Stuck => true,
    }
}

proof fn lemma_convert_val_read(v: tacky::ValV, env: Map<Seq<char>, int>, m: Map<assembly::Loc, int>)
    requires
        related(env, m),
    ensures
        tacky::value_of(v, env) matches Some(x) ==> assembly::read(spec_convert_val(v), m) == Some(x),
{
    if let tacky::ValV::Var(k) = v {
        if env.dom().contains(k) {
            assert(m.dom().contains(assembly::Loc::Pseudo(k)));
        }
    }
}

proof fn lemma_convert_instruction_correct(
    i: tacky::InstructionV,
    env: Map<Seq<char>, int>,
    m: Map<assembly::Loc, int>,
)
    requires
        related(env, m),
    ensures
        refines(
            assembly::run(spec_convert_instruction(i), assembly::Outcome::Running(m)),
            tacky::step(i, env),
        ),
{
    reveal_with_fuel(assembly::run, 3);
    match i {
        tacky::InstructionV::Return(v) => {
            lemma_convert_val_read(v, env, m);
            let ops = spec_convert_instruction(i);
            assert(ops.drop_first().drop_first() =~= Seq::<InstructionV>::empty());
        },
        tacky::InstructionV::Unary { op, src, dst } => {
            lemma_convert_val_read(src, env, m);
            let ops = spec_convert_instruction(i);
            assert(ops.drop_first().drop_first() =~= Seq::<InstructionV>::empty());
            if let (Some(x), tacky::ValV::Var(k)) = (tacky::value_of(src, env), dst) {
                let m1 = m.insert(assembly::Loc::Pseudo(k), x);
                let m2 = m1.insert(assembly::Loc::Pseudo(k), tacky::apply_unary(op, x));
                let env2 = env.insert(k, tacky::apply_unary(op, x));
                assert(assembly::read(OperandV::Pseudo(k), m1) == Some(x));
                assert(assembly::apply_unary(spec_convert_op(op), x) == tacky::apply_unary(op, x));
                assert forall|j: Seq<char>| #[trigger] env2.dom().contains(j) implies m2.dom().contains(
                    assembly::Loc::Pseudo(j),
                ) && m2[assembly::Loc::Pseudo(j)] == env2[j] by {
                    if j != k {
                        assert(assembly::Loc::Pseudo(j) != assembly::Loc::Pseudo(k));
                        assert(env.dom().contains(j));
                    }
                }
                assert(assembly::run(ops, assembly::Outcome::Running(m)) == assembly::Outcome::Running(
                    m2,
                ));
            }
        },
    }
}

/// Runs of a TACKY sequence and of its assembly keep the refinement.
pub proof fn lemma_codegen_instrs_correct(
    s: Seq<tacky::InstructionV>,
    a: assembly::Outcome,
    t: tacky::Outcome,
)
    requires
        refines(a, t),
    ensures
        refines(assembly::run(codegen_instrs(s), a), tacky::run(s, t)),
    decreases s.len(),
{
    if s.len() == 0 {
    } else {
        let init = s.drop_last();
        let last = s.last();
        lemma_codegen_instrs_correct(init, a, t);
        assert(s =~= init + seq![last]);
        tacky::lemma_run_append(init, seq![last], t);
        assembly::lemma_run_append(codegen_instrs(init), spec_convert_instruction(last), a);
        let a1 = assembly::run(codegen_instrs(init), a);
        let t1 = tacky::run(init, t);
        tacky::lemma_run_single(last, t1);
        match t1 {
            tacky::Outcome::Running(env) => {
                lemma_convert_instruction_correct(last, env, a1->Running_0);
            },
            tacky::Outcome::Returned(v) => {
                assembly::lemma_run_done(spec_convert_instruction(last), a1);
            },
            tacky::Outcome::Stuck => {},
        }
    }
}

/// Code generation preserves what a function returns: if the TACKY function returns
/// `v`, so does its assembly.
pub proof fn lemma_codegen_correct(f: tacky::FunctionV, v: int)
    requires
        tacky::function_outcome(f) == tacky::Outcome::Returned(v),
    ensures
        assembly::function_outcome(codegen_function(f)) == assembly::Outcome::Returned(v),
{
    let m = Map::<assembly::Loc, int>::empty();
    let env = Map::<Seq<char>, int>::empty();
    lemma_codegen_instrs_correct(f.body, assembly::Outcome::Running(m), tacky::Outcome::Running(env));
}

/// Converting a concatenation of TACKY bodies converts each part in turn, order kept.
pub proof fn lemma_codegen_append(a: Seq<tacky::InstructionV>, b: Seq<tacky::InstructionV>)
    ensures
        codegen_instrs(a + b) == codegen_instrs(a) + codegen_instrs(b),
    decreases b.len(),
{
    if b.len() == 0 {
        assert(a + b =~= a);
        assert(codegen_instrs(a) + codegen_instrs(b) =~= codegen_instrs(a));
    } else {
        assert((a + b).drop_last() =~= a + b.drop_last());
        assert((a + b).last() == b.last());
        lemma_codegen_append(a, b.drop_last());
        assert(codegen_instrs(a) + codegen_instrs(b.drop_last()) + spec_convert_instruction(b.last())
            =~= codegen_instrs(a) + (codegen_instrs(b.drop_last()) + spec_convert_instruction(
            b.last(),
        )));
    }
}

} // verus!
