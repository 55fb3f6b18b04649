use vstd::prelude::*;

use crate::ast;
use crate::tacky;
use crate::tacky::{instrs_view, FunctionV, InstructionV, ValV};
use crate::unique_ids::{lemma_temp_name_injective, make_temporary, temp_name};

verus! {

/// The TACKY operator for an AST operator.
pub open spec fn spec_convert_op(op: ast::UnaryOp) -> tacky::UnaryOp {
    match op {
        ast::UnaryOp::Complement => tacky::UnaryOp::Complement,
        ast::UnaryOp::Negate => tacky::UnaryOp::Negate,
    }
}

/// The instructions that evaluate `e`, and the value that holds its result, when
/// temporaries are numbered from `next`. The operand of a unary operator is
/// evaluated first; the operator's result goes to the next fresh temporary.
pub open spec fn tacky_exp(e: ast::Exp, next: nat) -> (Seq<InstructionV>, ValV)
    decreases e,
{
    match e {
        ast::Exp::Constant(c) => (seq![], ValV::Constant(c)),
        ast::Exp::Unary(op, inner) => {
            let (ins, src) = tacky_exp(*inner, next);
            let dst = ValV::Var(temp_name(next + ast::unary_count(*inner)));
            (ins.push(InstructionV::Unary { op: spec_convert_op(op), src, dst }), dst)
        },
    }
}

/// The instructions of a statement, with temporaries numbered from `next`.
pub open spec fn tacky_statement(s: ast::Statement, next: nat) -> Seq<InstructionV> {
    match s {
        ast::Statement::Return(e) => {
            let (ins, v) = tacky_exp(e, next);
            ins.push(InstructionV::Return(v))
        },
    }
}

/// The TACKY function for an AST function, with temporaries numbered from `next`.
pub open spec fn tacky_function(f: ast::FunctionDefinitionV, next: nat) -> FunctionV {
    FunctionV { name: f.name, body: tacky_statement(f.body, next) }
}

/// The number of unary operators in a program's return expression.
pub open spec fn program_unary_count(f: ast::FunctionDefinitionV) -> nat {
    match f.body {
        ast::Statement::Return(e) => ast::unary_count(e),
    }
}

/// Convert an AST unary operator to a TACKY unary operator.
fn convert_op(op: &ast::UnaryOp) -> (r: tacky::UnaryOp)
    ensures
        r == spec_convert_op(*op),
{
    match op {
        ast::UnaryOp::Complement => tacky::UnaryOp::Complement,
        ast::UnaryOp::Negate => tacky::UnaryOp::Negate,
    }
}

/// Emit TACKY instructions for an expression: the instructions that evaluate it
/// and the value holding the result. Each unary operator takes one fresh temporary.
fn emit_tacky_for_exp(exp: &ast::Exp, counter: &mut usize) -> (r: (Vec<tacky::Instruction>, tacky::Val))
    requires
        *old(counter) + ast::unary_count(*exp) <= usize::MAX,
    ensures
        *final(counter) == *old(counter) + ast::unary_count(*exp),
        (instrs_view(r.0@), r.1@) == tacky_exp(*exp, *old(counter) as nat),
    decreases exp,
{
    match exp {
        ast::Exp::Constant(c) => {
            let r = (Vec::new(), tacky::Val::Constant(*c));
            assert(instrs_view(r.0@) =~= seq![]);
            r
        },
        ast::Exp::Unary(op, inner) => {
            let (mut instructions, src) = emit_tacky_for_exp(inner, counter);
            let dst_name = make_temporary(counter);
            let dst = tacky::Val::Var(dst_name);
            let tacky_op = convert_op(op);
            let ghost before = instructions@;
            instructions.push(tacky::Instruction::Unary { op: tacky_op, src, dst: dst.duplicate() });
            assert(instrs_view(instructions@) =~= instrs_view(before).push(
                instructions@.last()@,
            ));
            (instructions, dst)
        },
    }
}

/// The number of unary operators in a statement.
pub open spec fn statement_unary_count(s: ast::Statement) -> nat {
    match s {
        ast::Statement::Return(e) => ast::unary_count(e),
    }
}

/// Emit TACKY instructions for a statement: those of its expression, then the return.
fn emit_tacky_for_statement(stmt: &ast::Statement, counter: &mut usize) -> (r: Vec<tacky::Instruction>)
    requires
        *old(counter) + statement_unary_count(*stmt) <= usize::MAX,
    ensures
        *final(counter) == *old(counter) + statement_unary_count(*stmt),
        instrs_view(r@) == tacky_statement(*stmt, *old(counter) as nat),
{
    match stmt {
        ast::Statement::Return(exp) => {
            let (mut instructions, val) = emit_tacky_for_exp(exp, counter);
            let ghost before = instructions@;
            instructions.push(tacky::Instruction::Return(val));
            assert(instrs_view(instructions@) =~= instrs_view(before).push(
                instructions@.last()@,
            ));
            instructions
        },
    }
}

/// Emit TACKY for a function definition.
fn emit_tacky_for_function(func: &ast::FunctionDefinition, counter: &mut usize) -> (r: tacky::Function)
    requires
        *old(counter) + program_unary_count(func@) <= usize::MAX,
    ensures
        *final(counter) == *old(counter) + program_unary_count(func@),
        r@ == tacky_function(func@, *old(counter) as nat),
{
    let instructions = emit_tacky_for_statement(&func.body, counter);
    tacky::Function { name: func.name.clone(), body: instructions }
}

/// Generate TACKY IR from an AST program. Temporaries are numbered on from `counter`,
/// which ends past the last one handed out; `unique_ids::reset` starts again at `tmp.0`.
pub fn generate(program: &ast::Program, counter: &mut usize) -> (r: tacky::Program)
    requires
        *old(counter) + program_unary_count(program@) <= usize::MAX,
    ensures
        *final(counter) == *old(counter) + program_unary_count(program@),
        r@ == tacky_function(program@, *old(counter) as nat),
{
    tacky::Program { function: emit_tacky_for_function(&program.function, counter) }
}

// ---------------------------------------------------------------------------
// Correctness: the TACKY instructions compute what the expression denotes.

/// Running the instructions for `e`, from any environment, ends running in an
/// environment where the result value holds the value of `e`.
pub proof fn lemma_tacky_exp_correct(e: ast::Exp, next: nat, env: Map<Seq<char>, int>)
    ensures
        ({
            let (ins, v) = tacky_exp(e, next);
            let o = tacky::run(ins, tacky::Outcome::Running(env));
            &&& o is Running
            &&& tacky::value_of(v, o->Running_0) == Some(ast::eval_exp(e))
        }),
    decreases e,
{
    match e {
        ast::Exp::Constant(c) => {},
        ast::Exp::Unary(op, inner) => {
            let (ins, src) = tacky_exp(*inner, next);
            lemma_tacky_exp_correct(*inner, next, env);
            let dst = ValV::Var(temp_name(next + ast::unary_count(*inner)));
            let u = InstructionV::Unary { op: spec_convert_op(op), src, dst };
            tacky::lemma_run_append(ins, seq![u], tacky::Outcome::Running(env));
            assert(ins.push(u) =~= ins + seq![u]);
            let o1 = tacky::run(ins, tacky::Outcome::Running(env));
            tacky::lemma_run_single(u, o1);
        },
    }
}

/// The TACKY function returns the value of the program's return expression, however
/// its temporaries are numbered.
pub proof fn lemma_tacky_gen_correct(f: ast::FunctionDefinitionV, next: nat)
    ensures
        tacky::function_outcome(tacky_function(f, next)) == tacky::Outcome::Returned(
            ast::program_value(f),
        ),
{
    match f.body {
        ast::Statement::Return(e) => {
            let (ins, v) = tacky_exp(e, next);
            let env = Map::<Seq<char>, int>::empty();
            lemma_tacky_exp_correct(e, next, env);
            let r = InstructionV::Return(v);
            tacky::lemma_run_append(ins, seq![r], tacky::Outcome::Running(env));
            assert(ins.push(r) =~= ins + seq![r]);
            let o1 = tacky::run(ins, tacky::Outcome::Running(env));
            tacky::lemma_run_single(r, o1);
        },
    }
}

// ---------------------------------------------------------------------------
// Each unary operator gets its own temporary.

/// A unary instruction whose result goes to temporary `n`.
pub open spec fn writes_temp(i: InstructionV, n: nat) -> bool {
    i matches InstructionV::Unary { dst: ValV::Var(name), .. } && name == temp_name(n)
}

/// The `k`-th instruction for an expression is a unary operation into temporary `next + k`.
pub proof fn lemma_tacky_exp_shape(e: ast::Exp, next: nat)
    ensures
        tacky_exp(e, next).0.len() == ast::unary_count(e),
        forall|k: int|
            0 <= k < tacky_exp(e, next).0.len() ==> writes_temp(#[trigger] tacky_exp(e, next).0[k], (next + k) as nat),
        ast::unary_count(e) > 0 ==> tacky_exp(e, next).1 == ValV::Var(
            temp_name((next + ast::unary_count(e) - 1) as nat),
        ),
    decreases e,
{
    if let ast::Exp::Unary(op, inner) = e {
        lemma_tacky_exp_shape(*inner, next);
        let ins = tacky_exp(*inner, next).0;
        let all = tacky_exp(e, next).0;
        assert forall|k: int| 0 <= k < all.len() implies writes_temp(#[trigger] all[k], (next + k) as nat) by {
            if k < ins.len() {
                assert(all[k] == ins[k]);
            }
        }
    }
}

/// TACKY generation gives one unary instruction per unary operator, each writing a
/// fresh temporary `tmp.next`, `tmp.(next+1)`, ... in turn, followed by the return; no
/// two of them write the same temporary.
pub proof fn lemma_fresh_temporaries(f: ast::FunctionDefinitionV, next: nat)
    ensures
        tacky_function(f, next).body.len() == program_unary_count(f) + 1,
        tacky_function(f, next).body.last() is Return,
        forall|k: int|
            0 <= k < program_unary_count(f) ==> writes_temp(
                #[trigger] tacky_function(f, next).body[k],
                (next + k) as nat,
            ),
        forall|j: int, k: int|
            0 <= j < k < program_unary_count(f) ==> (#[trigger] tacky_function(f, next).body[j])->dst
                != (#[trigger] tacky_function(f, next).body[k])->dst,
{
    match f.body {
        ast::Statement::Return(e) => {
            lemma_tacky_exp_shape(e, next);
            let ins = tacky_exp(e, next).0;
            let body = tacky_function(f, next).body;
            assert forall|k: int| 0 <= k < program_unary_count(f) implies writes_temp(
                #[trigger] body[k],
                (next + k) as nat,
            ) by {
                assert(body[k] == ins[k]);
            }
            assert forall|j: int, k: int| 0 <= j < k < program_unary_count(f) implies (#[trigger] body[j])->dst
                != (#[trigger] body[k])->dst by {
                assert(body[j] == ins[j]);
                assert(body[k] == ins[k]);
                if body[j]->dst == body[k]->dst {
                    lemma_temp_name_injective((next + j) as nat, (next + k) as nat);
                }
            }
        },
    }
}

} // verus!
