use vstd::prelude::*;

use crate::assembly::{Function, FunctionV, Instruction, InstructionV, Operand, OperandV, Program, Reg, UnaryOp};
use crate::settings::Platform;
use crate::text::{int_text, push_int};

verus! {

// ---------------------------------------------------------------------------
// The x86-64 text (AT&T syntax) of the assembly IR.

/// How an operand is written: `$42`, `%eax`, `%r10d`, `-4(%rbp)`; a pseudo-register
/// that was never replaced is written as its name.
pub open spec fn operand_text(op: OperandV) -> Seq<char> {
    match op {
        OperandV::Imm(v) => "$"@ + int_text(v as int),
        OperandV::Reg(Reg::AX) => "%eax"@,
        OperandV::Reg(Reg::R10) => "%r10d"@,
        OperandV::Stack(off) => int_text(off as int) + "(%rbp)"@,
        OperandV::Pseudo(name) => name,
    }
}

/// A function's label: prefixed with `_` on macOS.
pub open spec fn label_text(name: Seq<char>, platform: Platform) -> Seq<char> {
    match platform {
        Platform::OsX => "_"@ + name,
        Platform::Linux => name,
    }
}

/// The lines of one instruction. `Ret` restores the caller's frame before returning.
pub open spec fn instruction_text(i: InstructionV) -> Seq<char> {
    match i {
        InstructionV::Mov { src, dst } => "\tmovl "@ + operand_text(src) + ", "@ + operand_text(dst) + "\n"@,
        InstructionV::Unary { op: UnaryOp::Neg, dst } => "\tnegl "@ + operand_text(dst) + "\n"@,
        InstructionV::Unary { op: UnaryOp::Not, dst } => "\tnotl "@ + operand_text(dst) + "\n"@,
        InstructionV::AllocateStack(n) => "\tsubq $"@ + int_text(n as int) + ", %rsp\n"@,
        InstructionV::Ret => "\tmovq %rbp, %rsp\n\tpopq %rbp\n\tret\n"@,
    }
}

/// The lines of a sequence of instructions.
pub open spec fn instructions_text(s: Seq<InstructionV>) -> Seq<char>
    decreases s.len(),
{
    if s.len() == 0 {
        seq![]
    } else {
        instructions_text(s.drop_last()) + instruction_text(s.last())
    }
}

/// A function: a blank line, the global label, the label, the prologue, the instructions.
pub open spec fn function_text(f: FunctionV, platform: Platform) -> Seq<char> {
    "\n\t.globl "@ + label_text(f.name, platform) + "\n"@ + label_text(f.name, platform) + ":\n"@
        + "\tpushq %rbp\n\tmovq %rsp, %rbp\n"@ + instructions_text(f.instructions)
}

/// The GNU stack note, on Linux only (it keeps the stack from being executable).
pub open spec fn stack_note_text(platform: Platform) -> Seq<char> {
    match platform {
        Platform::Linux => "\t.section .note.GNU-stack,\"\",@progbits\n"@,
        Platform::OsX => seq![],
    }
}

/// The whole assembly file of a program.
pub open spec fn program_text(f: FunctionV, platform: Platform) -> Seq<char> {
    function_text(f, platform) + stack_note_text(platform)
}

/// Append how an operand is written to `out`.
pub fn format_operand(out: &mut String, op: &Operand)
    ensures
        final(out)@ == old(out)@ + operand_text(op@),
{
    match op {
        Operand::Imm(val) => {
            out.append("$");
            push_int(out, *val);
        },
        Operand::Reg(Reg::AX) => out.append("%eax"),
        Operand::Reg(Reg::R10) => out.append("%r10d"),
        Operand::Stack(off) => {
            push_int(out, *off as i64);
            out.append("(%rbp)");
        },
        Operand::Pseudo(name) => out.append(name.as_str()),
    }
}

/// Append a function's label to `out`, prepending "_" on macOS.
pub fn format_label(out: &mut String, name: &String, platform: Platform)
    ensures
        final(out)@ == old(out)@ + label_text(name@, platform),
{
    match platform {
        Platform::OsX => {
            out.append("_");
            out.append(name.as_str());
        },
        Platform::Linux => out.append(name.as_str()),
    }
}

/// Emit a single instruction.
pub fn emit_instruction(out: &mut String, instr: &Instruction)
    ensures
        final(out)@ == old(out)@ + instruction_text(instr@),
{
    let ghost start = out@;
    match instr {
        Instruction::Mov { src, dst } => {
            out.append("\tmovl ");
            format_operand(out, src);
            out.append(", ");
            format_operand(out, dst);
            out.append("\n");
        },
        Instruction::Unary { op, dst } => {
            match op {
                UnaryOp::Neg => out.append("\tnegl "),
                UnaryOp::Not => out.append("\tnotl "),
            }
            format_operand(out, dst);
            out.append("\n");
        },
        Instruction::AllocateStack(n) => {
            out.append("\tsubq $");
            push_int(out, *n as i64);
            out.append(", %rsp\n");
        },
        Instruction::Ret => {
            out.append("\tmovq %rbp, %rsp\n\tpopq %rbp\n\tret\n");
        },
    }
    assert(out@ =~= start + instruction_text(instr@));
}

/// Emit a function definition: label, prologue and instructions.
pub fn emit_function(out: &mut String, func: &Function, platform: Platform)
    ensures
        final(out)@ == old(out)@ + function_text(func@, platform),
{
    let ghost start = out@;
    out.append("\n\t.globl ");
    format_label(out, &func.name, platform);
    out.append("\n");
    format_label(out, &func.name, platform);
    out.append(":\n");
    out.append("\tpushq %rbp\n\tmovq %rsp, %rbp\n");
    let ghost header = out@;
    let ghost s = func@.instructions;
    let n = func.instructions.len();
    assert(s.take(0) =~= Seq::<InstructionV>::empty());
    assert(header =~= header + instructions_text(s.take(0)));
    for i in 0..n
        invariant
            n == s.len(),
            s == func@.instructions,
            out@ == header + instructions_text(s.take(i as int)),
    {
        emit_instruction(out, &func.instructions[i]);
        assert(s.take(i + 1).drop_last() =~= s.take(i as int));
        assert(s.take(i + 1).last() == func.instructions@[i as int]@);
        assert(out@ =~= header + instructions_text(s.take(i + 1)));
    }
    assert(s.take(n as int) =~= s);
    assert(out@ =~= start + function_text(func@, platform));
}

/// Emit the GNU stack note (Linux only, prevents executable stack).
pub fn emit_stack_note(out: &mut String, platform: Platform)
    ensures
        final(out)@ == old(out)@ + stack_note_text(platform),
{
    if platform == Platform::Linux {
        out.append("\t.section .note.GNU-stack,\"\",@progbits\n");
    } else {
        assert(out@ =~= out@ + stack_note_text(platform));
    }
}

/// The full assembly text of a program.
pub fn emit_program(program: &Program, platform: Platform) -> (s: String)
    ensures
        s@ == program_text(program@, platform),
{
    let mut s = String::new();
    emit_function(&mut s, &program.function, platform);
    emit_stack_note(&mut s, platform);
    assert(s@ =~= program_text(program@, platform));
    s
}

} // verus!
