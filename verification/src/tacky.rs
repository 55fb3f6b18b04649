use vstd::prelude::*;

verus! {

/// A unary operator in TACKY (same names as the AST's, but a separate type).
#[derive(Debug, Clone, PartialEq)]
pub enum UnaryOp {
    Complement,
    Negate,
}

/// A TACKY value: an integer constant or a temporary variable.
#[derive(Debug, Clone, PartialEq)]
pub enum Val {
    Constant(i64),
    Var(String),
}

/// A TACKY instruction.
#[derive(Debug, Clone, PartialEq)]
pub enum Instruction {
    Return(Val),
    Unary { op: UnaryOp, src: Val, dst: Val },
}

/// A TACKY function definition.
#[derive(Debug, Clone, PartialEq)]
pub struct Function {
    pub name: String,
    pub body: Vec<Instruction>,
}

/// A TACKY program.
#[derive(Debug, Clone, PartialEq)]
pub struct Program {
    pub function: Function,
}

/// The model of a value: a variable is its name as characters.
pub enum ValV {
    Constant(i64),
    Var(Seq<char>),
}

/// The model of an instruction.
pub enum InstructionV {
    Return(ValV),
    Unary { op: UnaryOp, src: ValV, dst: ValV },
}

/// The model of a function.
pub struct FunctionV {
    pub name: Seq<char>,
    pub body: Seq<InstructionV>,
}

impl View for Val {
    type V = ValV;

    open spec fn view(&self) -> ValV {
        match self {
            Val::Constant(c) => ValV::Constant(*c),
            Val::Var(name) => ValV::Var(name@),
        }
    }
}

impl View for Instruction {
    type V = InstructionV;

    open spec fn view(&self) -> InstructionV {
        match self {
            Instruction::Return(v) => InstructionV::Return(v@),
            Instruction::Unary { op, src, dst } => InstructionV::Unary {
                op: *op,
                src: src@,
                dst: dst@,
            },
        }
    }
}

/// The models of a sequence of instructions.
pub open spec fn instrs_view(v: Seq<Instruction>) -> Seq<InstructionV> {
    v.map_values(|i: Instruction| i@)
}

impl View for Function {
    type V = FunctionV;

    open spec fn view(&self) -> FunctionV {
        FunctionV { name: self.name@, body: instrs_view(self.body@) }
    }
}

/// A program is seen as its one function.
impl View for Program {
    type V = FunctionV;

    open spec fn view(&self) -> FunctionV {
        self.function@
    }
}

impl Val {
    /// A copy of this value with the same model.
    pub fn duplicate(&self) -> (r: Val)
        ensures
            r@ == self@,
    {
        match self {
            Val::Constant(c) => Val::Constant(*c),
            Val::Var(name) => Val::Var(name.clone()),
        }
    }
}

// ---------------------------------------------------------------------------
// Semantics: instructions run one after another over an environment that maps
// variable names to mathematical integers.

/// The state of a running TACKY function.
pub enum Outcome {
    Running(Map<Seq<char>, int>),
    Returned(int),
    Stuck,
}

pub open spec fn apply_unary(op: UnaryOp, v: int) -> int {
    match op {
        UnaryOp::Complement => -v - 1,
        UnaryOp::Negate => -v,
    }
}

/// The value of `v` in `env`; reading an unset variable gives `None`.
pub open spec fn value_of(v: ValV, env: Map<Seq<char>, int>) -> Option<int> {
    match v {
        ValV::Constant(c) => Some(c as int),
        ValV::Var(name) => if env.dom().contains(name) {
            Some(env[name])
        } else {
            None
        },
    }
}

/// One instruction; writing to a constant or reading an unset variable is stuck.
pub open spec fn step(ins: InstructionV, env: Map<Seq<char>, int>) -> Outcome {
    match ins {
        InstructionV::Return(v) => match value_of(v, env) {
            Some(x) => Outcome::Returned(x),
            None => Outcome::Stuck,
        },
        InstructionV::Unary { op, src, dst } => match (value_of(src, env), dst) {
            (Some(x), ValV::Var(name)) => Outcome::Running(env.insert(name, apply_unary(op, x))),
            _ => Outcome::Stuck,
        },
    }
}

/// Runs the instructions in order from `o`; once returned or stuck, nothing changes.
pub open spec fn run(instrs: Seq<InstructionV>, o: Outcome) -> Outcome
    decreases instrs.len(),
{
    if instrs.len() == 0 {
        o
    } else {
        match o {
            Outcome::Running(env) => run(instrs.drop_first(), step(instrs[0], env)),
            _ => o,
        }
    }
}

/// What a function gives when run from an empty environment.
pub open spec fn function_outcome(f: FunctionV) -> Outcome {
    run(f.body, Outcome::Running(Map::empty()))
}

/// Running two sequences one after the other is running their concatenation.
pub proof fn lemma_run_append(a: Seq<InstructionV>, b: Seq<InstructionV>, o: Outcome)
    ensures
        run(a + b, o) == run(b, run(a, o)),
    decreases a.len(),
{
    if a.len() == 0 {
        assert(a + b =~= b);
        match o {
            Outcome::Running(_) => {},
            _ => {
                lemma_run_done(b, o);
            },
        }
    } else {
        match o {
            Outcome::Running(env) => {
                assert((a + b).drop_first() =~= a.drop_first() + b);
                assert((a + b)[0] == a[0]);
                lemma_run_append(a.drop_first(), b, step(a[0], env));
            },
            _ => {
                lemma_run_done(b, o);
            },
        }
    }
}

/// Once returned or stuck, running more instructions changes nothing.
pub proof fn lemma_run_done(b: Seq<InstructionV>, o: Outcome)
    requires
        !(o is Running),
    ensures
        run(b, o) == o,
{
}

/// Running a single instruction is one step.
pub proof fn lemma_run_single(i: InstructionV, o: Outcome)
    ensures
        run(seq![i], o) == match o {
            Outcome::Running(env) => step(i, env),
            _ => o,
        },
{
    reveal_with_fuel(run, 2);
    assert(seq![i].drop_first() =~= Seq::<InstructionV>::empty());
}

} // verus!
