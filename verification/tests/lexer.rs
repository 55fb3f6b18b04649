use lily::lexer::lex;
use lily::tokens::Token;

#[test]
fn lex_simple_program() {
    let source = "int main(void) { return 42; }";
    let tokens = lex(source).unwrap();
    assert_eq!(
        tokens,
        vec![
            Token::KWInt,
            Token::Identifier("main".to_string()),
            Token::OpenParen,
            Token::KWVoid,
            Token::CloseParen,
            Token::OpenBrace,
            Token::KWReturn,
            Token::Constant(42),
            Token::Semicolon,
            Token::CloseBrace,
        ]
    );
}

#[test]
fn lex_error_invalid_token() {
    let source = "123abc";
    assert!(lex(source).is_err());
}

#[test]
fn lex_unary_operators() {
    let source = "return ~(-42);";
    let tokens = lex(source).unwrap();
    assert_eq!(
        tokens,
        vec![
            Token::KWReturn,
            Token::Tilde,
            Token::OpenParen,
            Token::Hyphen,
            Token::Constant(42),
            Token::CloseParen,
            Token::Semicolon,
        ]
    );
}

#[test]
fn lex_double_hyphen() {
    let source = "--5";
    let tokens = lex(source).unwrap();
    assert_eq!(tokens, vec![Token::DoubleHyphen, Token::Constant(5)]);
}

#[test]
fn lex_error_messages() {
    assert_eq!(
        lex("  123abc").unwrap_err().0,
        "Invalid token: number followed by identifier character at position 2"
    );
    assert_eq!(
        lex("return 99999999999999999999;").unwrap_err().0,
        "Failed to parse integer '99999999999999999999': number too large to fit in target type"
    );
    assert_eq!(lex("int @").unwrap_err().0, "Unexpected character '@' at position 4");
    assert_eq!(lex("@").unwrap_err().to_text(), "Lex error: Unexpected character '@' at position 0");
}

#[test]
fn lex_largest_constant() {
    assert_eq!(lex("9223372036854775807").unwrap(), vec![Token::Constant(i64::MAX)]);
    assert!(lex("9223372036854775808").is_err());
}

#[test]
fn lex_keywords_are_not_identifiers() {
    let tokens = lex("int integer _void return1 void\treturn\n").unwrap();
    assert_eq!(
        tokens,
        vec![
            Token::KWInt,
            Token::Identifier("integer".to_string()),
            Token::Identifier("_void".to_string()),
            Token::Identifier("return1".to_string()),
            Token::KWVoid,
            Token::KWReturn,
        ]
    );
}

#[test]
fn lex_hyphens_longest_match() {
    assert_eq!(
        lex("---").unwrap(),
        vec![Token::DoubleHyphen, Token::Hyphen]
    );
    assert_eq!(lex("- -").unwrap(), vec![Token::Hyphen, Token::Hyphen]);
    assert_eq!(lex("").unwrap(), vec![]);
}

#[test]
fn token_text_forms() {
    assert_eq!(Token::Identifier("main".to_string()).to_text(), "Identifier(main)");
    assert_eq!(Token::Constant(-7).to_text(), "Constant(-7)");
    assert_eq!(Token::OpenBrace.to_text(), "{");
    assert_eq!(Token::DoubleHyphen.to_text(), "--");
}

#[test]
fn lex_whitespace_does_not_change_tokens() {
    assert_eq!(lex("int  main").unwrap(), lex("int\tmain").unwrap());
    assert_eq!(lex(" \n return 1;\r\n").unwrap(), lex("return 1;").unwrap());
    assert!(lex("  1x").is_err() && lex("1x").is_err());
}

#[test]
fn lex_texts_joined_by_whitespace() {
    let a = lex("int a").unwrap();
    let b = lex("--b;").unwrap();
    let mut both = a.clone();
    both.extend(b);
    assert_eq!(lex("int a \t--b;").unwrap(), both);
}

#[test]
fn lex_printed_tokens_round_trip() {
    let tokens = lex("int main(void){return ~(-42);}--").unwrap();
    let printed: Vec<String> = tokens
        .iter()
        .map(|t| match t {
            Token::Identifier(w) => w.clone(),
            Token::Constant(v) => v.to_string(),
            other => other.to_text(),
        })
        .collect();
    assert_eq!(lex(&printed.join(" ")).unwrap(), tokens);
}
