use vstd::prelude::*;

use crate::assembly;
use crate::assembly::{
    instrs_view, lemma_append_view, Function, FunctionV, Instruction, InstructionV, Loc, Operand,
    OperandV, Outcome, Program, Reg,
};

verus! {

/// The valid instructions for one instruction: a `mov` from a stack slot to a stack
/// slot goes through `R10`; every other instruction stays as it is.
pub open spec fn spec_fixup_instruction(i: InstructionV) -> Seq<InstructionV> {
    match i {
        InstructionV::Mov { src: OperandV::Stack(a), dst: OperandV::Stack(b) } => seq![
            InstructionV::Mov { src: OperandV::Stack(a), dst: OperandV::Reg(Reg::R10) },
            InstructionV::Mov { src: OperandV::Reg(Reg::R10), dst: OperandV::Stack(b) },
        ],
        _ => seq![i],
    }
}

/// Each instruction fixed up in turn.
pub open spec fn fixup_instrs(s: Seq<InstructionV>) -> Seq<InstructionV>
    decreases s.len(),
{
    if s.len() == 0 {
        seq![]
    } else {
        fixup_instrs(s.drop_last()) + spec_fixup_instruction(s.last())
    }
}

/// The fixed-up function: `AllocateStack(stack_size)` first, then each instruction fixed up.
pub open spec fn fixup_function_spec(f: FunctionV, stack_size: i32) -> FunctionV {
    FunctionV {
        name: f.name,
        instructions: seq![InstructionV::AllocateStack(stack_size)] + fixup_instrs(f.instructions),
    }
}

/// Fix up a single instruction.
///
/// A `mov` from a stack slot to a stack slot is invalid on x86-64,
/// so we split it into two instructions using R10 as a scratch register.
fn fixup_instruction(instr: &Instruction) -> (r: Vec<Instruction>)
    ensures
        instrs_view(r@) == spec_fixup_instruction(instr@),
{
    let r = match instr {
        Instruction::Mov { src: Operand::Stack(a), dst: Operand::Stack(b) } => vec![
            Instruction::Mov { src: Operand::Stack(*a), dst: Operand::Reg(Reg::R10) },
            Instruction::Mov { src: Operand::Reg(Reg::R10), dst: Operand::Stack(*b) },
        ],
        other => vec![other.duplicate()],
    };
    assert(instrs_view(r@) =~= spec_fixup_instruction(instr@));
    r
}

/// Fix up an entire function:
/// - Prepend `AllocateStack(stack_size)` to set up the stack frame.
/// - Rewrite any invalid instructions.
fn fixup_function(func: &Function, stack_size: i32) -> (r: Function)
    ensures
        r@ == fixup_function_spec(func@, stack_size),
{
    let mut instructions = vec![Instruction::AllocateStack(stack_size)];
    let ghost s = func@.instructions;
    let n = func.instructions.len();
    assert(instrs_view(instructions@) =~= seq![InstructionV::AllocateStack(stack_size)]
        + fixup_instrs(s.take(0)));
    for i in 0..n
        invariant
            n == s.len(),
            s == func@.instructions,
            instrs_view(instructions@) == seq![InstructionV::AllocateStack(stack_size)]
                + fixup_instrs(s.take(i as int)),
    {
        let ghost before = instructions@;
        let mut fixed = fixup_instruction(&func.instructions[i]);
        let ghost f = fixed@;
        instructions.append(&mut fixed);
        proof {
            lemma_append_view(before, f);
            assert(s.take(i + 1).drop_last() =~= s.take(i as int));
            assert(s.take(i + 1).last() == func.instructions@[i as int]@);
            assert(instrs_view(instructions@) =~= seq![InstructionV::AllocateStack(stack_size)]
                + fixup_instrs(s.take(i + 1)));
        }
    }
    assert(s.take(n as int) =~= s);
    Function { name: func.name.clone(), instructions }
}

/// Fix up the entire program.
pub fn fixup_program(program: &Program, stack_size: i32) -> (r: Program)
    ensures
        r@ == fixup_function_spec(program@, stack_size),
{
    Program { function: fixup_function(&program.function, stack_size) }
}

// ---------------------------------------------------------------------------
// Correctness: R10 is scratch, so only its value may differ.

/// An operand other than the scratch register.
pub open spec fn not_scratch(op: OperandV) -> bool {
    op != OperandV::Reg(Reg::R10)
}

/// The instructions never name the scratch register.
pub open spec fn scratch_free(s: Seq<InstructionV>) -> bool {
    forall|k: int|
        0 <= k < s.len() ==> match #[trigger] s[k] {
            InstructionV::Mov { src, dst } => not_scratch(src) && not_scratch(dst),
            InstructionV::Unary { dst, .. } => not_scratch(dst),
            _ => true,
        }
}

/// Every location but the scratch register set before is set, to the same value, after.
pub open spec fn related(m: Map<Loc, int>, m2: Map<Loc, int>) -> bool {
    forall|l: Loc|
        l != Loc::Reg(Reg::R10) && #[trigger] m.dom().contains(l) ==> m2.dom().contains(l) && m2[l] == m[l]
}

/// The fixed-up run keeps up with the run before fixup.
pub open spec fn refines(a: Outcome, o: Outcome) -> bool {
    match o {
        Outcome::Running(m) => a matches Outcome::Running(m2) && related(m, m2),
        Outcome::Returned(v) => a == Outcome::Returned(v),
        Outcome::Stuck => true,
    }
}

proof fn lemma_read_same(op: OperandV, m: Map<Loc, int>, m2: Map<Loc, int>)
    requires
        related(m, m2),
        not_scratch(op),
    ensures
        assembly::read(op, m) matches Some(x) ==> assembly::read(op, m2) == Some(x),
{
    if let Some(l) = assembly::loc_of(op) {
        if m.dom().contains(l) {
            assert(l != Loc::Reg(Reg::R10));
        }
    }
}

proof fn lemma_write_same(l: Loc, m: Map<Loc, int>, m2: Map<Loc, int>, x: int)
    requires
        related(m, m2),
    ensures
        related(m.insert(l, x), m2.insert(l, x)),
{
    assert forall|k: Loc| k != Loc::Reg(Reg::R10) && #[trigger] m.insert(l, x).dom().contains(k) implies m2.insert(
        l,
        x,
    ).dom().contains(k) && m2.insert(l, x)[k] == m.insert(l, x)[k] by {
        if k != l {
            assert(m.dom().contains(k));
        }
    }
}

proof fn lemma_fixup_instruction_correct(i: InstructionV, m: Map<Loc, int>, m2: Map<Loc, int>)
    requires
        related(m, m2),
        scratch_free(seq![i]),
    ensures
        refines(assembly::run(spec_fixup_instruction(i), Outcome::Running(m2)), assembly::step(i, m)),
{
    assert(seq![i][0] == i);
    reveal_with_fuel(assembly::run, 3);
    match i {
        InstructionV::Mov { src: OperandV::Stack(a), dst: OperandV::Stack(b) } => {
            let ops = spec_fixup_instruction(i);
            assert(ops.drop_first().drop_first() =~= Seq::<InstructionV>::empty());
            lemma_read_same(OperandV::Stack(a), m, m2);
            if let Some(x) = assembly::read(OperandV::Stack(a), m) {
                let m3 = m2.insert(Loc::Reg(Reg::R10), x);
                assert(assembly::read(OperandV::Reg(Reg::R10), m3) == Some(x));
                lemma_write_same(Loc::Stack(b as int), m, m2, x);
                assert forall|k: Loc| k != Loc::Reg(Reg::R10) && #[trigger] m.insert(Loc::Stack(b as int), x).dom().contains(k)
                    implies m3.insert(Loc::Stack(b as int), x).dom().contains(k)
                    && m3.insert(Loc::Stack(b as int), x)[k] == m.insert(Loc::Stack(b as int), x)[k] by {
                    assert(m2.insert(Loc::Stack(b as int), x).dom().contains(k));
                }
            }
        },
        _ => {
            let ops = spec_fixup_instruction(i);
            assert(ops =~= seq![i]);
            assembly::lemma_run_single(i, Outcome::Running(m2));
            match i {
                InstructionV::Mov { src, dst } => {
                    lemma_read_same(src, m, m2);
                    if let (Some(x), Some(l)) = (assembly::read(src, m), assembly::loc_of(dst)) {
                        lemma_write_same(l, m, m2, x);
                    }
                },
                InstructionV::Unary { op, dst } => {
                    lemma_read_same(dst, m, m2);
                    if let (Some(x), Some(l)) = (assembly::read(dst, m), assembly::loc_of(dst)) {
                        lemma_write_same(l, m, m2, assembly::apply_unary(op, x));
                    }
                },
                InstructionV::Ret => {
                    lemma_read_same(OperandV::Reg(Reg::AX), m, m2);
                },
                _ => {},
            }
        },
    }
}

/// Runs of instructions and of their fixed-up form keep the refinement.
pub proof fn lemma_fixup_instrs_correct(s: Seq<InstructionV>, a: Outcome, o: Outcome)
    requires
        refines(a, o),
        scratch_free(s),
    ensures
        refines(assembly::run(fixup_instrs(s), a), assembly::run(s, o)),
    decreases s.len(),
{
    if s.len() > 0 {
        let init = s.drop_last();
        let last = s.last();
        assert forall|k: int| 0 <= k < init.len() implies match #[trigger] init[k] {
            InstructionV::Mov { src, dst } => not_scratch(src) && not_scratch(dst),
            InstructionV::Unary { dst, .. } => not_scratch(dst),
            _ => true,
        } by {
            assert(init[k] == s[k]);
        }
        lemma_fixup_instrs_correct(init, a, o);
        assert(s =~= init + seq![last]);
        assembly::lemma_run_append(init, seq![last], o);
        assembly::lemma_run_append(fixup_instrs(init), spec_fixup_instruction(last), a);
        let a1 = assembly::run(fixup_instrs(init), a);
        let o1 = assembly::run(init, o);
        assembly::lemma_run_single(last, o1);
        assert(seq![last][0] == s[s.len() - 1]);
        assert(scratch_free(seq![last]));
        match o1 {
            Outcome::Running(m) => {
                lemma_fixup_instruction_correct(last, m, a1->Running_0);
            },
            Outcome::Returned(_) => {
                assembly::lemma_run_done(spec_fixup_instruction(last), a1);
            },
            Outcome::Stuck => {},
        }
    }
}

/// Instruction fixup preserves what a function returns, for instructions that never
/// name the scratch register `R10`.
pub proof fn lemma_fixup_correct(f: FunctionV, stack_size: i32, v: int)
    requires
        scratch_free(f.instructions),
        assembly::function_outcome(f) == Outcome::Returned(v),
    ensures
        assembly::function_outcome(fixup_function_spec(f, stack_size)) == Outcome::Returned(v),
{
    let e = Map::<Loc, int>::empty();
    let alloc = InstructionV::AllocateStack(stack_size);
    assembly::lemma_run_append(seq![alloc], fixup_instrs(f.instructions), Outcome::Running(e));
    assembly::lemma_run_single(alloc, Outcome::Running(e));
    lemma_fixup_instrs_correct(f.instructions, Outcome::Running(e), Outcome::Running(e));
}

/// A `mov` whose both operands are stack slots, which x86-64 does not have.
pub open spec fn is_memory_to_memory(i: InstructionV) -> bool {
    i matches InstructionV::Mov { src: OperandV::Stack(_), dst: OperandV::Stack(_) }
}

proof fn lemma_fixup_instrs_valid(s: Seq<InstructionV>)
    ensures
        forall|k: int| 0 <= k < fixup_instrs(s).len() ==> !is_memory_to_memory(#[trigger] fixup_instrs(s)[k]),
    decreases s.len(),
{
    if s.len() > 0 {
        lemma_fixup_instrs_valid(s.drop_last());
        let a = fixup_instrs(s.drop_last());
        let b = spec_fixup_instruction(s.last());
        assert forall|k: int| 0 <= k < (a + b).len() implies !is_memory_to_memory(#[trigger] (a + b)[k]) by {
            if k >= a.len() {
                assert((a + b)[k] == b[k - a.len()]);
            }
        }
    }
}

/// After fixup a function starts by allocating its frame and holds no memory-to-memory `mov`.
pub proof fn lemma_fixup_valid(f: FunctionV, stack_size: i32)
    ensures
        fixup_function_spec(f, stack_size).instructions[0] == InstructionV::AllocateStack(stack_size),
        forall|k: int|
            0 <= k < fixup_function_spec(f, stack_size).instructions.len() ==> !is_memory_to_memory(
                #[trigger] fixup_function_spec(f, stack_size).instructions[k],
            ),
{
    lemma_fixup_instrs_valid(f.instructions);
    let all = fixup_function_spec(f, stack_size).instructions;
    let rest = fixup_instrs(f.instructions);
    assert forall|k: int| 0 <= k < all.len() implies !is_memory_to_memory(#[trigger] all[k]) by {
        if k > 0 {
            assert(all[k] == rest[k - 1]);
        }
    }
}

} // verus!
