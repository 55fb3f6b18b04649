use vstd::prelude::*;

verus! {

/// A hardware register.
#[derive(Debug, Clone, Copy, PartialEq, Eq)]
pub enum Reg {
    AX,
    R10,
}

/// An assembly operand.
#[derive(Debug, Clone, PartialEq)]
pub enum Operand {
    /// An immediate integer value (e.g. $42).
    Imm(i64),
    /// A hardware register.
    Reg(Reg),
    /// A pseudo-register (temporary variable name, to be replaced later).
    Pseudo(String),
    /// A stack slot at an offset from %rbp.
    Stack(i32),
}

/// An assembly unary operator.
#[derive(Debug, Clone, Copy, PartialEq, Eq)]
pub enum UnaryOp {
    Neg,
    Not,
}

/// An assembly instruction.
#[derive(Debug, Clone, PartialEq)]
pub enum Instruction {
    /// movl src, dst
    Mov { src: Operand, dst: Operand },
    /// A unary operation (negl / notl) on a destination operand.
    Unary { op: UnaryOp, dst: Operand },
    /// Allocate stack space: subq $N, %rsp
    AllocateStack(i32),
    /// ret (with epilogue)
    Ret,
}

/// An assembly-level function definition.
#[derive(Debug, Clone, PartialEq)]
pub struct Function {
    pub name: String,
    pub instructions: Vec<Instruction>,
}

/// An assembly-level program.
#[derive(Debug, Clone, PartialEq)]
pub struct Program {
    pub function: Function,
}

/// The model of an operand: a pseudo-register is its name as characters.
pub enum OperandV {
    Imm(i64),
    Reg(Reg),
    Pseudo(Seq<char>),
    Stack(i32),
}

/// The model of an instruction.
pub enum InstructionV {
    Mov { src: OperandV, dst: OperandV },
    Unary { op: UnaryOp, dst: OperandV },
    AllocateStack(i32),
    Ret,
}

/// The model of a function.
pub struct FunctionV {
    pub name: Seq<char>,
    pub instructions: Seq<InstructionV>,
}

impl View for Operand {
    type V = OperandV;

    open spec fn view(&self) -> OperandV {
        match self {
            Operand::Imm(v) => OperandV::Imm(*v),
            Operand::Reg(r) => OperandV::Reg(*r),
            Operand::Pseudo(name) => OperandV::Pseudo(name@),
            Operand::Stack(off) => OperandV::Stack(*off),
        }
    }
}

impl View for Instruction {
    type V = InstructionV;

    open spec fn view(&self) -> InstructionV {
        match self {
            Instruction::Mov { src, dst } => InstructionV::Mov { src: src@, dst: dst@ },
            Instruction::Unary { op, dst } => InstructionV::Unary { op: *op, dst: dst@ },
            Instruction::AllocateStack(n) => InstructionV::AllocateStack(*n),
            Instruction::Ret => InstructionV::Ret,
        }
    }
}

/// The models of a sequence of instructions.
pub open spec fn instrs_view(v: Seq<Instruction>) -> Seq<InstructionV> {
    v.map_values(|i: Instruction| i@)
}

impl View for Function {
    type V = FunctionV;

    open spec fn view(&self) -> FunctionV {
        FunctionV { name: self.name@, instructions: instrs_view(self.instructions@) }
    }
}

/// A program is seen as its one function.
impl View for Program {
    type V = FunctionV;

    open spec fn view(&self) -> FunctionV {
        self.function@
    }
}

impl Operand {
    /// A copy of this operand with the same model.
    pub fn duplicate(&self) -> (r: Operand)
        ensures
            r@ == self@,
    {
        match self {
            Operand::Imm(v) => Operand::Imm(*v),
            Operand::Reg(r) => Operand::Reg(*r),
            Operand::Pseudo(name) => Operand::Pseudo(name.clone()),
            Operand::Stack(off) => Operand::Stack(*off),
        }
    }
}

impl Instruction {
    /// A copy of this instruction with the same model.
    pub fn duplicate(&self) -> (r: Instruction)
        ensures
            r@ == self@,
    {
        match self {
            Instruction::Mov { src, dst } => Instruction::Mov {
                src: src.duplicate(),
                dst: dst.duplicate(),
            },
            Instruction::Unary { op, dst } => Instruction::Unary { op: *op, dst: dst.duplicate() },
            Instruction::AllocateStack(n) => Instruction::AllocateStack(*n),
            Instruction::Ret => Instruction::Ret,
        }
    }
}

/// Pushing an instruction pushes its model.
pub proof fn lemma_push_view(v: Seq<Instruction>, i: Instruction)
    ensures
        instrs_view(v.push(i)) == instrs_view(v).push(i@),
{
    assert(instrs_view(v.push(i)) =~= instrs_view(v).push(i@));
}

/// Appending instructions appends their models.
pub proof fn lemma_append_view(a: Seq<Instruction>, b: Seq<Instruction>)
    ensures
        instrs_view(a + b) == instrs_view(a) + instrs_view(b),
{
    assert(instrs_view(a + b) =~= instrs_view(a) + instrs_view(b));
}

// ---------------------------------------------------------------------------
// Semantics: a machine state maps locations (registers, pseudo-registers and
// stack slots) to mathematical integers.

/// A place that holds a value.
pub enum Loc {
    Reg(Reg),
    Pseudo(Seq<char>),
    Stack(int),
}

/// The state of a running assembly function.
pub enum Outcome {
    Running(Map<Loc, int>),
    Returned(int),
    Stuck,
}

/// The location an operand names; an immediate names none.
pub open spec fn loc_of(op: OperandV) -> Option<Loc> {
    match op {
        OperandV::Imm(_) => None,
        OperandV::Reg(r) => Some(Loc::Reg(r)),
        OperandV::Pseudo(name) => Some(Loc::Pseudo(name)),
        OperandV::Stack(off) => Some(Loc::Stack(off as int)),
    }
}

/// The value an operand reads; an unset location gives `None`.
pub open spec fn read(op: OperandV, m: Map<Loc, int>) -> Option<int> {
    match op {
        OperandV::Imm(v) => Some(v as int),
        _ => match loc_of(op) {
            Some(l) => if m.dom().contains(l) {
                Some(m[l])
            } else {
                None
            },
            None => None,
        },
    }
}

pub open spec fn apply_unary(op: UnaryOp, v: int) -> int {
    match op {
        UnaryOp::Not => -v - 1,
        UnaryOp::Neg => -v,
    }
}

/// One instruction. `Ret` returns what `AX` holds; stack allocation changes no value.
pub open spec fn step(ins: InstructionV, m: Map<Loc, int>) -> Outcome {
    match ins {
        InstructionV::Mov { src, dst } => match (read(src, m), loc_of(dst)) {
            (Some(x), Some(l)) => Outcome::Running(m.insert(l, x)),
            _ => Outcome::Stuck,
        },
        InstructionV::Unary { op, dst } => match (read(dst, m), loc_of(dst)) {
            (Some(x), Some(l)) => Outcome::Running(m.insert(l, apply_unary(op, x))),
            _ => Outcome::Stuck,
        },
        InstructionV::AllocateStack(_) => Outcome::Running(m),
        InstructionV::Ret => match read(OperandV::Reg(Reg::AX), m) {
            Some(x) => Outcome::Returned(x),
            None => Outcome::Stuck,
        },
    }
}

/// Runs the instructions in order from `o`; once returned or stuck, nothing changes.
pub open spec fn run(instrs: Seq<InstructionV>, o: Outcome) -> Outcome
    decreases instrs.len(),
{
    if instrs.len() == 0 {
        o
    } else {
        match o {
            Outcome::Running(m) => run(instrs.drop_first(), step(instrs[0], m)),
            _ => o,
        }
    }
}

/// What a function gives when run from an empty machine state.
pub open spec fn function_outcome(f: FunctionV) -> Outcome {
    run(f.instructions, Outcome::Running(Map::empty()))
}

/// Running two sequences one after the other is running their concatenation.
pub proof fn lemma_run_append(a: Seq<InstructionV>, b: Seq<InstructionV>, o: Outcome)
    ensures
        run(a + b, o) == run(b, run(a, o)),
    decreases a.len(),
{
    if a.len() == 0 {
        assert(a + b =~= b);
        match o {
            Outcome::Running(_) => {},
            _ => {
                lemma_run_done(b, o);
            },
        }
    } else {
        match o {
            Outcome::Running(m) => {
                assert((a + b).drop_first() =~= a.drop_first() + b);
                assert((a + b)[0] == a[0]);
                lemma_run_append(a.drop_first(), b, step(a[0], m));
            },
            _ => {
                lemma_run_done(b, o);
            },
        }
    }
}

/// Once returned or stuck, running more instructions changes nothing.
pub proof fn lemma_run_done(b: Seq<InstructionV>, o: Outcome)
    requires
        !(o is Running),
    ensures
        run(b, o) == o,
    decreases b.len(),
{
    if b.len() > 0 {
        lemma_run_done(b.drop_first(), o);
    }
}

/// Running a single instruction is one step.
pub proof fn lemma_run_single(i: InstructionV, o: Outcome)
    ensures
        run(seq![i], o) == match o {
            Outcome::Running(m) => step(i, m),
            _ => o,
        },
{
    reveal_with_fuel(run, 2);
    assert(seq![i].drop_first() =~= Seq::<InstructionV>::empty());
}

} // verus!
