use lily::ast::{Exp, Statement, UnaryOp};
use lily::lexer::lex;
use lily::parser::parse;
use lily::tokens::Token;

#[test]
fn parse_simple_program() {
    let tokens = vec![
        Token::KWInt,
        Token::Identifier("main".to_string()),
        Token::OpenParen,
        Token::KWVoid,
        Token::CloseParen,
        Token::OpenBrace,
        Token::KWReturn,
        Token::Constant(42),
        Token::Semicolon,
        Token::CloseBrace,
    ];
    let program = parse(tokens).unwrap();
    assert_eq!(program.function.name, "main");
    assert_eq!(program.function.body, Statement::Return(Exp::Constant(42)));
}

#[test]
fn parse_error_missing_semicolon() {
    let tokens = vec![
        Token::KWInt,
        Token::Identifier("main".to_string()),
        Token::OpenParen,
        Token::KWVoid,
        Token::CloseParen,
        Token::OpenBrace,
        Token::KWReturn,
        Token::Constant(0),
        // missing semicolon
        Token::CloseBrace,
    ];
    assert!(parse(tokens).is_err());
}

#[test]
fn parse_unary_and_parentheses() {
    let program = parse(lex("int main(void) { return ~(-42); }").unwrap()).unwrap();
    assert_eq!(
        program.function.body,
        Statement::Return(Exp::Unary(
            UnaryOp::Complement,
            Box::new(Exp::Unary(UnaryOp::Negate, Box::new(Exp::Constant(42)))),
        ))
    );
    let program = parse(lex("int main(void) { return -(-10); }").unwrap()).unwrap();
    assert_eq!(
        program.function.body,
        Statement::Return(Exp::Unary(
            UnaryOp::Negate,
            Box::new(Exp::Unary(UnaryOp::Negate, Box::new(Exp::Constant(10)))),
        ))
    );
}

#[test]
fn parse_error_messages() {
    let err = parse(lex("int main(void) { return 0 }").unwrap()).unwrap_err();
    assert_eq!(err.0, "Expected ; but found }");
    assert_eq!(err.to_text(), "Parse error: Expected ; but found }");
    let err = parse(lex("int 3(void) { return 0; }").unwrap()).unwrap_err();
    assert_eq!(err.0, "Expected an identifier but found Constant(3)");
    let err = parse(lex("int main(void) { return; }").unwrap()).unwrap_err();
    assert_eq!(err.0, "Expected a constant but found ;");
    let err = parse(lex("int main(void) { return --2; }").unwrap()).unwrap_err();
    assert_eq!(err.0, "Expected a constant but found --");
    let err = parse(lex("int main(void) { return 2;").unwrap()).unwrap_err();
    assert_eq!(err.0, "Unexpected end of input");
    let err = parse(lex("int main(void) { return 2; } int").unwrap()).unwrap_err();
    assert_eq!(err.0, "Unexpected tokens after function definition");
    let err = parse(lex("int main(int) { return 2; }").unwrap()).unwrap_err();
    assert_eq!(err.0, "Expected void but found int");
}

#[test]
fn parse_grammar_examples() {
    let body = |src: &str| parse(lex(src).unwrap()).unwrap().function.body;
    assert_eq!(
        body("int main(void) { return 42; }"),
        Statement::Return(Exp::Constant(42))
    );
    assert_eq!(
        body("int main(void) { return -5; }"),
        Statement::Return(Exp::Unary(UnaryOp::Negate, Box::new(Exp::Constant(5))))
    );
    assert_eq!(
        body("int main(void) { return ~0; }"),
        Statement::Return(Exp::Unary(UnaryOp::Complement, Box::new(Exp::Constant(0))))
    );
    assert_eq!(
        body("int main(void) { return ((7)); }"),
        Statement::Return(Exp::Constant(7))
    );
}

#[test]
fn parse_return_program_of_any_name_and_value() {
    let program = parse(lex("int foo_1(void) { return 9223372036854775807; }").unwrap()).unwrap();
    assert_eq!(program.function.name, "foo_1");
    assert_eq!(program.function.body, Statement::Return(Exp::Constant(i64::MAX)));
}
