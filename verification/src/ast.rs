use vstd::prelude::*;

verus! {

/// A unary operator.
#[derive(Debug, Clone, PartialEq)]
pub enum UnaryOp {
    Complement,  // ~
    Negate,  // -
}

/// An expression.
#[derive(Debug, PartialEq)]
pub enum Exp {
    Constant(i64),
    Unary(UnaryOp, Box<Exp>),
}

impl Clone for Exp {
    fn clone(&self) -> (r: Self)
        ensures
            r == *self,
        decreases self,
    {
        match self {
            Exp::Constant(c) => Exp::Constant(*c),
            Exp::Unary(op, inner) => {
                let op2 = match op {
                    UnaryOp::Complement => UnaryOp::Complement,
                    UnaryOp::Negate => UnaryOp::Negate,
                };
                Exp::Unary(op2, Box::new((**inner).clone()))
            },
        }
    }
}

/// A statement.
#[derive(Debug, Clone, PartialEq)]
pub enum Statement {
    Return(Exp),
}

/// A function definition.
#[derive(Debug, Clone, PartialEq)]
pub struct FunctionDefinition {
    pub name: String,
    pub body: Statement,
}

/// A complete program (a single function for now).
#[derive(Debug, Clone, PartialEq)]
pub struct Program {
    pub function: FunctionDefinition,
}

/// The model of a function definition: its name as characters and its body.
pub struct FunctionDefinitionV {
    pub name: Seq<char>,
    pub body: Statement,
}

impl View for FunctionDefinition {
    type V = FunctionDefinitionV;

    open spec fn view(&self) -> FunctionDefinitionV {
        FunctionDefinitionV { name: self.name@, body: self.body }
    }
}

/// A program is seen as its one function.
impl View for Program {
    type V = FunctionDefinitionV;

    open spec fn view(&self) -> FunctionDefinitionV {
        self.function@
    }
}

/// The value of a unary operator applied to `v`, on mathematical integers
/// (`~v` is `-v - 1`, as in two's complement).
pub open spec fn apply_unary(op: UnaryOp, v: int) -> int {
    match op {
        UnaryOp::Complement => -v - 1,
        UnaryOp::Negate => -v,
    }
}

/// The value of an expression.
pub open spec fn eval_exp(e: Exp) -> int
    decreases e,
{
    match e {
        Exp::Constant(c) => c as int,
        Exp::Unary(op, inner) => apply_unary(op, eval_exp(*inner)),
    }
}

/// The number of unary operators in an expression.
pub open spec fn unary_count(e: Exp) -> nat
    decreases e,
{
    match e {
        Exp::Constant(_) => 0,
        Exp::Unary(_, inner) => unary_count(*inner) + 1,
    }
}

/// The value a program returns.
pub open spec fn program_value(f: FunctionDefinitionV) -> int {
    match f.body {
        Statement::Return(e) => eval_exp(e),
    }
}

} // verus!
