use vstd::prelude::*;

use crate::assembly;
use crate::codegen;
use crate::emit;
use crate::instruction_fixup;
use crate::lexer;
use crate::lexer::LexError;
use crate::parser;
use crate::parser::ParseError;
use crate::replace_pseudos;
use crate::settings::{Platform, Stage};
use crate::tacky_gen;
use crate::tokens::tokens_view;

verus! {

/// Why compiling a source text failed.
#[derive(Debug)]
pub enum CompileError {
    Lex(LexError),
    Parse(ParseError),
    /// The function needs more stack slots than an `i32` frame can address.
    FrameTooLarge,
}

/// The model of a compile error: the lexer's or parser's message.
pub enum CompileErrorV {
    Lex(Seq<char>),
    Parse(Seq<char>),
    FrameTooLarge,
}

impl View for CompileError {
    type V = CompileErrorV;

    open spec fn view(&self) -> CompileErrorV {
        match self {
            CompileError::Lex(e) => CompileErrorV::Lex(e.0@),
            CompileError::Parse(e) => CompileErrorV::Parse(e.0@),
            CompileError::FrameTooLarge => CompileErrorV::FrameTooLarge,
        }
    }
}

impl CompileError {
    /// The diagnostic to show for this error.
    pub fn to_text(&self) -> (s: String)
        ensures
            s@ == match self@ {
                CompileErrorV::Lex(m) => "Lex error: "@ + m,
                CompileErrorV::Parse(m) => "Parse error: "@ + m,
                CompileErrorV::FrameTooLarge => "Function needs too much stack space"@,
            },
    {
        match self {
            CompileError::Lex(e) => e.to_text(),
            CompileError::Parse(e) => e.to_text(),
            CompileError::FrameTooLarge => String::from_str("Function needs too much stack space"),
        }
    }
}

/// The assembly function, after all passes, for a parsed program.
pub open spec fn backend(f: crate::ast::FunctionDefinitionV) -> assembly::FunctionV {
    let lowered = codegen::codegen_function(tacky_gen::tacky_function(f, 0));
    let replaced = assembly::FunctionV {
        name: lowered.name,
        instructions: replace_pseudos::replaced_instrs(lowered.instructions),
    };
    instruction_fixup::fixup_function_spec(
        replaced,
        replace_pseudos::stack_size(lowered.instructions) as i32,
    )
}

/// Whether the stack slots of a parsed program's function surely fit an `i32` frame.
pub open spec fn frame_fits(f: crate::ast::FunctionDefinitionV) -> bool {
    let lowered = codegen::codegen_function(tacky_gen::tacky_function(f, 0));
    4 * replace_pseudos::pseudo_occurrences(lowered.instructions).len() <= i32::MAX
}

/// What compiling a source text up to `stage` gives: nothing when the stage ends
/// before emission, the assembly text when it does not, or the first error.
pub open spec fn spec_compile(source: Seq<char>, stage: Stage, platform: Platform) -> Result<
    Option<Seq<char>>,
    CompileErrorV,
> {
    match lexer::spec_lex(source) {
        Err(m) => Err(CompileErrorV::Lex(m)),
        Ok(tokens) => if stage == Stage::Lex {
            Ok(None)
        } else {
            match parser::spec_parse(tokens) {
                Err(m) => Err(CompileErrorV::Parse(m)),
                Ok(f) => if stage == Stage::Parse || stage == Stage::Tacky {
                    Ok(None)
                } else if !frame_fits(f) {
                    Err(CompileErrorV::FrameTooLarge)
                } else if stage == Stage::Codegen {
                    Ok(None)
                } else {
                    Ok(Some(emit::program_text(backend(f), platform)))
                },
            }
        },
    }
}

/// How the result of compiling is seen in contracts.
pub open spec fn compile_result_view(r: Result<Option<String>, CompileError>) -> Result<
    Option<Seq<char>>,
    CompileErrorV,
> {
    match r {
        Ok(Some(s)) => Ok(Some(s@)),
        Ok(None) => Ok(None),
        Err(e) => Err(e@),
    }
}

/// Code generation names no stack slot, no scratch register, and allocates no stack.
pub proof fn lemma_codegen_shape(s: Seq<crate::tacky::InstructionV>)
    ensures
        replace_pseudos::stack_free(codegen::codegen_instrs(s)),
        instruction_fixup::scratch_free(codegen::codegen_instrs(s)),
    decreases s.len(),
{
    if s.len() > 0 {
        lemma_codegen_shape(s.drop_last());
        let a = codegen::codegen_instrs(s.drop_last());
        let b = codegen::spec_convert_instruction(s.last());
        let c = a + b;
        assert forall|k: int| 0 <= k < c.len() implies match #[trigger] c[k] {
            assembly::InstructionV::Mov { src, dst } => replace_pseudos::not_stack(src)
                && replace_pseudos::not_stack(dst) && instruction_fixup::not_scratch(src)
                && instruction_fixup::not_scratch(dst),
            assembly::InstructionV::Unary { dst, .. } => replace_pseudos::not_stack(dst)
                && instruction_fixup::not_scratch(dst),
            assembly::InstructionV::AllocateStack(_) => false,
            assembly::InstructionV::Ret => true,
        } by {
            if k < a.len() {
                assert(c[k] == a[k]);
            } else {
                assert(c[k] == b[k - a.len()]);
            }
        }
    }
}

/// Replacing pseudo-registers by slots brings in no scratch register.
proof fn lemma_replaced_scratch_free(s: Seq<assembly::InstructionV>)
    requires
        instruction_fixup::scratch_free(s),
    ensures
        instruction_fixup::scratch_free(replace_pseudos::replaced_instrs(s)),
{
    let r = replace_pseudos::replaced_instrs(s);
    assert forall|k: int| 0 <= k < r.len() implies match #[trigger] r[k] {
        assembly::InstructionV::Mov { src, dst } => instruction_fixup::not_scratch(src)
            && instruction_fixup::not_scratch(dst),
        assembly::InstructionV::Unary { dst, .. } => instruction_fixup::not_scratch(dst),
        _ => true,
    } by {
        assert(r[k] == replace_pseudos::replace_instr_with(s[k], replace_pseudos::pseudo_order(s)));
    }
}

/// The compiler is correct: for every parsed program whose frame fits, the assembly
/// it produces returns the value of the program's return expression.
pub proof fn lemma_compile_correct(f: crate::ast::FunctionDefinitionV)
    requires
        frame_fits(f),
    ensures
        assembly::function_outcome(backend(f)) == assembly::Outcome::Returned(
            crate::ast::program_value(f),
        ),
{
    let v = crate::ast::program_value(f);
    let t = tacky_gen::tacky_function(f, 0);
    tacky_gen::lemma_tacky_gen_correct(f, 0);
    let lowered = codegen::codegen_function(t);
    codegen::lemma_codegen_correct(t, v);
    lemma_codegen_shape(t.body);
    replace_pseudos::lemma_add_names(seq![], replace_pseudos::pseudo_occurrences(lowered.instructions));
    replace_pseudos::lemma_replace_pseudos_correct(lowered.instructions, v);
    let replaced = assembly::FunctionV {
        name: lowered.name,
        instructions: replace_pseudos::replaced_instrs(lowered.instructions),
    };
    lemma_replaced_scratch_free(lowered.instructions);
    instruction_fixup::lemma_fixup_correct(
        replaced,
        replace_pseudos::stack_size(lowered.instructions) as i32,
        v,
    );
}

/// Run the compiler pipeline on a preprocessed source text, up to the requested stage:
/// lex, parse, TACKY generation, code generation, pseudo-register replacement,
/// instruction fixup, and emission of the assembly text.
pub fn compile_source(source: &str, stage: Stage, platform: Platform) -> (r: Result<Option<String>, CompileError>)
    ensures
        compile_result_view(r) == spec_compile(source@, stage, platform),
{
    // Lex
    let tokens = match lexer::lex(source) {
        Ok(t) => t,
        Err(e) => {
            return Err(CompileError::Lex(e));
        },
    };
    if stage == Stage::Lex {
        return Ok(None);
    }
    let ghost t = tokens_view(tokens@);
    let token_count: usize = tokens.len();
    assert(t.len() == token_count);
    // Parse
    let ast = match parser::parse(tokens) {
        Ok(p) => p,
        Err(e) => {
            return Err(CompileError::Parse(e));
        },
    };
    proof {
        parser::lemma_program_size(t);
    }
    if stage == Stage::Parse {
        return Ok(None);
    }
    // TACKY generation (AST -> TACKY IR); this run's temporaries start at tmp.0
    let mut counter: usize = 0;
    let tacky_prog = tacky_gen::generate(&ast, &mut counter);
    if stage == Stage::Tacky {
        return Ok(None);
    }
    // Code generation (TACKY -> assembly IR with pseudo-registers)
    let lowered = codegen::generate(&tacky_prog);
    proof {
        lemma_codegen_shape(tacky_prog@.body);
        let v = lowered.function.instructions@;
        assert forall|k: int| 0 <= k < v.len() implies !(#[trigger] v[k]@ is AllocateStack) by {
            assert(assembly::instrs_view(v)[k] == v[k]@);
        }
    }
    if !replace_pseudos::can_replace(&lowered.function.instructions) {
        return Err(CompileError::FrameTooLarge);
    }
    // Replace pseudo-registers with stack slots
    let (replaced, stack_size) = replace_pseudos::replace_pseudos(&lowered);
    // Fix up invalid instructions and prepend AllocateStack
    let fixed = instruction_fixup::fixup_program(&replaced, stack_size);
    if stage == Stage::Codegen {
        return Ok(None);
    }
    Ok(Some(emit::emit_program(&fixed, platform)))
}

/// What the compiler emits returns what the source program returns: whenever compiling
/// a source text gives assembly, that text is the one of a function which, run from an
/// empty machine, returns the value of the parsed program's return expression.
pub proof fn lemma_compiled_code_returns(source: Seq<char>, stage: Stage, platform: Platform)
    ensures
        spec_compile(source, stage, platform) matches Ok(Some(text)) ==> {
            &&& lexer::spec_lex(source) matches Ok(tokens)
            &&& parser::spec_parse(tokens) matches Ok(f)
            &&& text == emit::program_text(backend(f), platform)
            &&& assembly::function_outcome(backend(f)) == assembly::Outcome::Returned(
                crate::ast::program_value(f),
            )
        },
{
    if let Ok(tokens) = lexer::spec_lex(source) {
        if let Ok(f) = parser::spec_parse(tokens) {
            if frame_fits(f) {
                lemma_compile_correct(f);
            }
        }
    }
}

/// Each stage is reached only after every earlier stage has succeeded, and the first
/// failing stage decides the error:
/// - a source the lexer rejects with message `m` gives `Lex(m)` at every stage;
/// - stopping after lexing gives nothing more once the lexer succeeds;
/// - at every later stage, a source whose tokens the parser rejects with `m` gives `Parse(m)`;
/// - a parsed source gives nothing at the parse and TACKY stages, and from code generation
///   on needs its frame to fit; then it gives nothing at the code generation stage and
///   assembly text at the assembly and executable stages.
pub proof fn lemma_compile_stages(source: Seq<char>, stage: Stage, platform: Platform)
    ensures
        lexer::spec_lex(source) matches Err(m) ==> spec_compile(source, stage, platform) == Err::<
            Option<Seq<char>>,
            CompileErrorV,
        >(CompileErrorV::Lex(m)),
        lexer::spec_lex(source) is Ok && stage == Stage::Lex ==> spec_compile(source, stage, platform)
            == Ok::<Option<Seq<char>>, CompileErrorV>(None),
        lexer::spec_lex(source) matches Ok(ts) ==> (parser::spec_parse(ts) matches Err(m) ==> (stage
            != Stage::Lex ==> spec_compile(source, stage, platform) == Err::<
            Option<Seq<char>>,
            CompileErrorV,
        >(CompileErrorV::Parse(m)))),
        lexer::spec_lex(source) matches Ok(ts) ==> (parser::spec_parse(ts) matches Ok(f) ==> {
            &&& (stage == Stage::Parse || stage == Stage::Tacky) ==> spec_compile(source, stage, platform)
                == Ok::<Option<Seq<char>>, CompileErrorV>(None)
            &&& (stage == Stage::Codegen || stage == Stage::Assembly || stage == Stage::Executable)
                && !frame_fits(f) ==> spec_compile(source, stage, platform) == Err::<
                Option<Seq<char>>,
                CompileErrorV,
            >(CompileErrorV::FrameTooLarge)
            &&& stage == Stage::Codegen && frame_fits(f) ==> spec_compile(source, stage, platform)
                == Ok::<Option<Seq<char>>, CompileErrorV>(None)
            &&& (stage == Stage::Assembly || stage == Stage::Executable) && frame_fits(f) ==> spec_compile(
                source,
                stage,
                platform,
            ) is Ok && spec_compile(source, stage, platform)->Ok_0 is Some
        }),
{
}

} // verus!
