use lily::driver::{compile_source, CompileError};
use lily::paths::{is_c_source, replace_extension, try_replace_extension};
use lily::settings::{platform_from_uname, stage_from_flags, Platform, Stage};

#[test]
fn compile_return_negated_five() {
    let text = compile_source("int main(void) { return -5; }", Stage::Assembly, Platform::Linux)
        .unwrap()
        .unwrap();
    assert_eq!(
        text,
        "\n\t.globl main\nmain:\n\tpushq %rbp\n\tmovq %rsp, %rbp\n\tsubq $4, %rsp\n\
         \tmovl $5, -4(%rbp)\n\tnegl -4(%rbp)\n\tmovl -4(%rbp), %eax\n\
         \tmovq %rbp, %rsp\n\tpopq %rbp\n\tret\n\t.section .note.GNU-stack,\"\",@progbits\n"
    );
}

#[test]
fn compile_nested_unary_uses_r10_for_stack_moves() {
    let text = compile_source("int main(void) { return ~(-42); }", Stage::Executable, Platform::Linux)
        .unwrap()
        .unwrap();
    assert!(text.contains("\tsubq $8, %rsp\n"));
    assert!(text.contains("\tmovl -4(%rbp), %r10d\n\tmovl %r10d, -8(%rbp)\n\tnotl -8(%rbp)\n"));
    assert!(text.contains("\tmovl -8(%rbp), %eax\n"));
}

#[test]
fn compile_stops_at_stage() {
    let src = "int main(void) { return 2; }";
    assert!(compile_source(src, Stage::Lex, Platform::Linux).unwrap().is_none());
    assert!(compile_source(src, Stage::Parse, Platform::Linux).unwrap().is_none());
    assert!(compile_source(src, Stage::Tacky, Platform::Linux).unwrap().is_none());
    assert!(compile_source(src, Stage::Codegen, Platform::Linux).unwrap().is_none());
    // A syntax error is not seen when only lexing.
    assert!(compile_source("int main(", Stage::Lex, Platform::Linux).unwrap().is_none());
}

#[test]
fn compile_errors() {
    let err = compile_source("int main(void) { return 1 }", Stage::Assembly, Platform::Linux).unwrap_err();
    assert_eq!(err.to_text(), "Parse error: Expected ; but found }");
    let err = compile_source("int main(void) { return 1$; }", Stage::Lex, Platform::Linux).unwrap_err();
    assert_eq!(err.to_text(), "Lex error: Unexpected character '$' at position 25");
    match compile_source("int main(void) { return 1; ", Stage::Assembly, Platform::OsX) {
        Err(CompileError::Parse(e)) => assert_eq!(e.0, "Unexpected end of input"),
        _ => panic!("expected a parse error"),
    }
}

#[test]
fn stage_flags_earliest_wins() {
    assert_eq!(stage_from_flags(false, true, true, false, true), Stage::Parse);
    assert_eq!(stage_from_flags(true, true, true, true, true), Stage::Lex);
    assert_eq!(stage_from_flags(false, false, true, true, false), Stage::Tacky);
    assert_eq!(stage_from_flags(false, false, false, true, true), Stage::Codegen);
    assert_eq!(stage_from_flags(false, false, false, false, true), Stage::Assembly);
    assert_eq!(stage_from_flags(false, false, false, false, false), Stage::Executable);
}

#[test]
fn platform_from_uname_output() {
    assert_eq!(platform_from_uname("Darwin\n"), Platform::OsX);
    assert_eq!(platform_from_uname("DARWIN"), Platform::OsX);
    assert_eq!(platform_from_uname("Linux\n"), Platform::Linux);
    assert_eq!(platform_from_uname("darwi"), Platform::Linux);
}

#[test]
fn file_names() {
    assert_eq!(replace_extension("dir/prog.c", ".i"), "dir/prog.i");
    assert_eq!(replace_extension("prog.c", ".s"), "prog.s");
    assert_eq!(replace_extension("a/b/prog.i", ""), "a/b/prog");
    assert_eq!(try_replace_extension("..", ".s"), None);
    assert!(is_c_source("x/y.c"));
    assert!(is_c_source("y.h"));
    assert!(!is_c_source("y.cpp"));
    assert!(!is_c_source("y"));
}
