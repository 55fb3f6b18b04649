use vstd::prelude::*;

use crate::ast::{Exp, FunctionDefinition, FunctionDefinitionV, Program, Statement, UnaryOp};
use crate::lexer::{
    all_space, lemma_lex_concat, lemma_lex_space, lemma_lex_token_source, separable, spec_lex,
    token_source, well_formed_token,
};
use crate::text::nat_text;
use crate::tokens::{token_text, tokens_view, Token, TokenV};

verus! {

/// Parser error with a descriptive message.
#[derive(Debug)]
pub struct ParseError(pub String);

impl ParseError {
    /// The full diagnostic: `Parse error: ` followed by the message.
    pub fn to_text(&self) -> (s: String)
        ensures
            s@ == "Parse error: "@ + self.0@,
    {
        let mut s = String::new();
        s.append("Parse error: ");
        s.append(self.0.as_str());
        s
    }
}

// ---------------------------------------------------------------------------
// The grammar, as functions on token sequences.
//
// <program>   ::= <function>
// <function>  ::= "int" <identifier> "(" "void" ")" "{" <statement> "}"
// <statement> ::= "return" <exp> ";"
// <exp>       ::= <int> | <unop> <exp> | "(" <exp> ")"
// <unop>      ::= "-" | "~"
//
// Each function takes the position of the next token and gives what it parsed
// with the position after it, or the message of the first error.

pub open spec fn end_of_input_message() -> Seq<char> {
    "Unexpected end of input"@
}

pub open spec fn mismatch_message(expected: TokenV, actual: TokenV) -> Seq<char> {
    "Expected "@ + token_text(expected) + " but found "@ + token_text(actual)
}

pub open spec fn not_identifier_message(actual: TokenV) -> Seq<char> {
    "Expected an identifier but found "@ + token_text(actual)
}

pub open spec fn not_expression_message(actual: TokenV) -> Seq<char> {
    "Expected a constant but found "@ + token_text(actual)
}

pub open spec fn trailing_tokens_message() -> Seq<char> {
    "Unexpected tokens after function definition"@
}

/// Consume the token at `i`, which must be `expected`.
pub open spec fn expect_at(t: Seq<TokenV>, i: int, expected: TokenV) -> Result<int, Seq<char>> {
    if i < 0 || i >= t.len() {
        Err(end_of_input_message())
    } else if t[i] == expected {
        Ok(i + 1)
    } else {
        Err(mismatch_message(expected, t[i]))
    }
}

/// `<identifier>`
pub open spec fn identifier_at(t: Seq<TokenV>, i: int) -> Result<(Seq<char>, int), Seq<char>> {
    if i < 0 || i >= t.len() {
        Err(end_of_input_message())
    } else {
        match t[i] {
            TokenV::Identifier(name) => Ok((name, i + 1)),
            other => Err(not_identifier_message(other)),
        }
    }
}

/// `<exp>`
pub open spec fn exp_at(t: Seq<TokenV>, i: int) -> Result<(Exp, int), Seq<char>>
    decreases t.len() - i,
{
    if i < 0 || i >= t.len() {
        Err(end_of_input_message())
    } else {
        match t[i] {
            TokenV::Constant(v) => Ok((Exp::Constant(v), i + 1)),
            TokenV::Hyphen => match exp_at(t, i + 1) {
                Ok((e, j)) => Ok((Exp::Unary(UnaryOp::Negate, Box::new(e)), j)),
                Err(m) => Err(m),
            },
            TokenV::Tilde => match exp_at(t, i + 1) {
                Ok((e, j)) => Ok((Exp::Unary(UnaryOp::Complement, Box::new(e)), j)),
                Err(m) => Err(m),
            },
            TokenV::OpenParen => match exp_at(t, i + 1) {
                Ok((e, j)) => match expect_at(t, j, TokenV::CloseParen) {
                    Ok(k) => Ok((e, k)),
                    Err(m) => Err(m),
                },
                Err(m) => Err(m),
            },
            other => Err(not_expression_message(other)),
        }
    }
}

/// `<statement>`
pub open spec fn statement_at(t: Seq<TokenV>, i: int) -> Result<(Statement, int), Seq<char>> {
    match expect_at(t, i, TokenV::KWReturn) {
        Err(m) => Err(m),
        Ok(i1) => match exp_at(t, i1) {
            Err(m) => Err(m),
            Ok((e, i2)) => match expect_at(t, i2, TokenV::Semicolon) {
                Err(m) => Err(m),
                Ok(i3) => Ok((Statement::Return(e), i3)),
            },
        },
    }
}

/// `<function>`
pub open spec fn function_at(t: Seq<TokenV>, i: int) -> Result<(FunctionDefinitionV, int), Seq<char>> {
    match expect_at(t, i, TokenV::KWInt) {
        Err(m) => Err(m),
        Ok(i1) => match identifier_at(t, i1) {
            Err(m) => Err(m),
            Ok((name, i2)) => match expect_at(t, i2, TokenV::OpenParen) {
                Err(m) => Err(m),
                Ok(i3) => match expect_at(t, i3, TokenV::KWVoid) {
                    Err(m) => Err(m),
                    Ok(i4) => match expect_at(t, i4, TokenV::CloseParen) {
                        Err(m) => Err(m),
                        Ok(i5) => match expect_at(t, i5, TokenV::OpenBrace) {
                            Err(m) => Err(m),
                            Ok(i6) => match statement_at(t, i6) {
                                Err(m) => Err(m),
                                Ok((body, i7)) => match expect_at(t, i7, TokenV::CloseBrace) {
                                    Err(m) => Err(m),
                                    Ok(i8) => Ok((FunctionDefinitionV { name, body }, i8)),
                                },
                            },
                        },
                    },
                },
            },
        },
    }
}

/// `<program>`: one function and nothing after it.
pub open spec fn spec_parse(t: Seq<TokenV>) -> Result<FunctionDefinitionV, Seq<char>> {
    match function_at(t, 0) {
        Err(m) => Err(m),
        Ok((f, j)) => if j < t.len() {
            Err(trailing_tokens_message())
        } else {
            Ok(f)
        },
    }
}

// ---------------------------------------------------------------------------
// Token stream.

/// A token stream with a read position.
struct TokenStream {
    tokens: Vec<Token>,
    pos: usize,
}

impl TokenStream {
    spec fn toks(&self) -> Seq<TokenV> {
        tokens_view(self.tokens@)
    }

    fn new(tokens: Vec<Token>) -> (s: Self)
        ensures
            s.tokens@ == tokens@,
            s.pos == 0,
    {
        Self { tokens, pos: 0 }
    }

    /// Peek at the next token without consuming it.
    fn peek(&self) -> (r: Option<&Token>)
        ensures
            r matches Some(t) ==> self.pos < self.tokens@.len() && t@ == self.toks()[self.pos as int],
            r is None ==> self.pos >= self.tokens@.len(),
    {
        if self.pos < self.tokens.len() {
            Some(&self.tokens[self.pos])
        } else {
            None
        }
    }

    /// Consume and return the next token.
    fn take(&mut self) -> (r: Result<Token, ParseError>)
        ensures
            final(self).tokens@ == old(self).tokens@,
            match r {
                Ok(t) => old(self).pos < old(self).tokens@.len() && t@ == old(self).toks()[old(
                    self,
                ).pos as int] && final(self).pos == old(self).pos + 1,
                Err(e) => old(self).pos >= old(self).tokens@.len() && e.0@ == end_of_input_message()
                    && final(self).pos == old(self).pos,
            },
    {
        if self.pos < self.tokens.len() {
            let tok = self.tokens[self.pos].duplicate();
            self.pos = self.pos + 1;
            Ok(tok)
        } else {
            Err(ParseError(String::from_str("Unexpected end of input")))
        }
    }

    /// Consume the next token and verify it matches the expected token.
    fn expect(&mut self, expected: &Token) -> (r: Result<(), ParseError>)
        ensures
            final(self).tokens@ == old(self).tokens@,
            match r {
                Ok(_) => expect_at(old(self).toks(), old(self).pos as int, expected@) == Ok::<
                    int,
                    Seq<char>,
                >(final(self).pos as int),
                Err(e) => expect_at(old(self).toks(), old(self).pos as int, expected@) == Err::<
                    int,
                    Seq<char>,
                >(e.0@) && final(self).pos == if old(self).pos < old(self).tokens@.len() {
                    old(self).pos + 1
                } else {
                    old(self).pos as int
                },
            },
    {
        let actual = self.take()?;
        if !same_token(&actual, expected) {
            let mut msg = String::new();
            msg.append("Expected ");
            expected.write_text(&mut msg);
            msg.append(" but found ");
            actual.write_text(&mut msg);
            assert(msg@ =~= mismatch_message(expected@, actual@));
            return Err(ParseError(msg));
        }
        Ok(())
    }

    /// Returns true if all tokens have been consumed.
    fn is_empty(&self) -> (b: bool)
        ensures
            b == (self.pos >= self.tokens@.len()),
    {
        self.pos >= self.tokens.len()
    }
}

/// Whether two tokens are the same.
fn same_token(a: &Token, b: &Token) -> (r: bool)
    ensures
        r == (a@ == b@),
{
    match a {
        Token::Identifier(x) => match b {
            Token::Identifier(y) => x.eq(y),
            _ => false,
        },
        Token::Constant(x) => match b {
            Token::Constant(y) => *x == *y,
            _ => false,
        },
        Token::KWInt => matches!(b, Token::KWInt),
        Token::KWReturn => matches!(b, Token::KWReturn),
        Token::KWVoid => matches!(b, Token::KWVoid),
        Token::OpenParen => matches!(b, Token::OpenParen),
        Token::CloseParen => matches!(b, Token::CloseParen),
        Token::OpenBrace => matches!(b, Token::OpenBrace),
        Token::CloseBrace => matches!(b, Token::CloseBrace),
        Token::Semicolon => matches!(b, Token::Semicolon),
        Token::Tilde => matches!(b, Token::Tilde),
        Token::Hyphen => matches!(b, Token::Hyphen),
        Token::DoubleHyphen => matches!(b, Token::DoubleHyphen),
    }
}

/// Parse an `<identifier>`: expects an Identifier token.
fn parse_identifier(stream: &mut TokenStream) -> (r: Result<String, ParseError>)
    ensures
        final(stream).tokens@ == old(stream).tokens@,
        match r {
            Ok(name) => identifier_at(old(stream).toks(), old(stream).pos as int) == Ok::<
                (Seq<char>, int),
                Seq<char>,
            >((name@, final(stream).pos as int)),
            Err(e) => identifier_at(old(stream).toks(), old(stream).pos as int) == Err::<
                (Seq<char>, int),
                Seq<char>,
            >(e.0@),
        },
{
    match stream.take()? {
        Token::Identifier(name) => Ok(name),
        other => {
            let mut msg = String::new();
            msg.append("Expected an identifier but found ");
            other.write_text(&mut msg);
            assert(msg@ =~= not_identifier_message(other@));
            Err(ParseError(msg))
        },
    }
}

/// Parse `<exp>` ::= `<int>` | `<unop>` `<exp>` | "(" `<exp>` ")"
fn parse_exp(stream: &mut TokenStream) -> (r: Result<Exp, ParseError>)
    ensures
        final(stream).tokens@ == old(stream).tokens@,
        match r {
            Ok(e) => exp_at(old(stream).toks(), old(stream).pos as int) == Ok::<(Exp, int), Seq<char>>(
                (e, final(stream).pos as int),
            ),
            Err(e) => exp_at(old(stream).toks(), old(stream).pos as int) == Err::<
                (Exp, int),
                Seq<char>,
            >(e.0@),
        },
    decreases old(stream).tokens@.len() - old(stream).pos,
{
    let ghost t = old(stream).toks();
    let ghost i = old(stream).pos as int;
    match stream.take()? {
        Token::Constant(val) => Ok(Exp::Constant(val)),
        Token::Hyphen => {
            let inner = parse_exp(stream)?;
            Ok(Exp::Unary(UnaryOp::Negate, Box::new(inner)))
        },
        Token::Tilde => {
            let inner = parse_exp(stream)?;
            Ok(Exp::Unary(UnaryOp::Complement, Box::new(inner)))
        },
        Token::OpenParen => {
            let inner = parse_exp(stream)?;
            stream.expect(&Token::CloseParen)?;
            Ok(inner)
        },
        other => {
            let mut msg = String::new();
            msg.append("Expected a constant but found ");
            other.write_text(&mut msg);
            assert(msg@ =~= not_expression_message(other@));
            Err(ParseError(msg))
        },
    }
}

/// Parse `<statement>` ::= "return" `<exp>` ";"
fn parse_statement(stream: &mut TokenStream) -> (r: Result<Statement, ParseError>)
    ensures
        final(stream).tokens@ == old(stream).tokens@,
        match r {
            Ok(st) => statement_at(old(stream).toks(), old(stream).pos as int) == Ok::<
                (Statement, int),
                Seq<char>,
            >((st, final(stream).pos as int)),
            Err(e) => statement_at(old(stream).toks(), old(stream).pos as int) == Err::<
                (Statement, int),
                Seq<char>,
            >(e.0@),
        },
{
    stream.expect(&Token::KWReturn)?;
    let exp = parse_exp(stream)?;
    stream.expect(&Token::Semicolon)?;
    Ok(Statement::Return(exp))
}

/// Parse `<function>` ::= "int" `<identifier>` "(" "void" ")" "{" `<statement>` "}"
fn parse_function(stream: &mut TokenStream) -> (r: Result<FunctionDefinition, ParseError>)
    ensures
        final(stream).tokens@ == old(stream).tokens@,
        match r {
            Ok(f) => function_at(old(stream).toks(), old(stream).pos as int) == Ok::<
                (FunctionDefinitionV, int),
                Seq<char>,
            >((f@, final(stream).pos as int)),
            Err(e) => function_at(old(stream).toks(), old(stream).pos as int) == Err::<
                (FunctionDefinitionV, int),
                Seq<char>,
            >(e.0@),
        },
{
    stream.expect(&Token::KWInt)?;
    let name = parse_identifier(stream)?;
    stream.expect(&Token::OpenParen)?;
    stream.expect(&Token::KWVoid)?;
    stream.expect(&Token::CloseParen)?;
    stream.expect(&Token::OpenBrace)?;
    let body = parse_statement(stream)?;
    stream.expect(&Token::CloseBrace)?;
    Ok(FunctionDefinition { name, body })
}

/// How the result of the parser is seen in contracts.
pub open spec fn parse_result_view(r: Result<Program, ParseError>) -> Result<FunctionDefinitionV, Seq<char>> {
    match r {
        Ok(p) => Ok(p@),
        Err(e) => Err(e.0@),
    }
}

/// Parse `<program>` ::= `<function>`, with no token after it.
fn parse_program(stream: &mut TokenStream) -> (r: Result<Program, ParseError>)
    requires
        old(stream).pos == 0,
    ensures
        parse_result_view(r) == spec_parse(old(stream).toks()),
{
    let function = parse_function(stream)?;
    if !stream.is_empty() {
        return Err(ParseError(String::from_str("Unexpected tokens after function definition")));
    }
    Ok(Program { function })
}

/// Public entry point: parse a vector of tokens into an AST.
///
/// The result is exactly `spec_parse` of the tokens: the program, or the message
/// of the first syntax error.
pub fn parse(tokens: Vec<Token>) -> (r: Result<Program, ParseError>)
    ensures
        parse_result_view(r) == spec_parse(tokens_view(tokens@)),
{
    let mut stream = TokenStream::new(tokens);
    parse_program(&mut stream)
}

/// A parsed expression has fewer unary operators than the tokens it took.
pub proof fn lemma_exp_size(t: Seq<TokenV>, i: int)
    ensures
        exp_at(t, i) matches Ok((e, j)) ==> i < j <= t.len() && crate::ast::unary_count(e) < j - i,
    decreases t.len() - i,
{
    if 0 <= i < t.len() {
        match t[i] {
            TokenV::Hyphen | TokenV::Tilde | TokenV::OpenParen => {
                lemma_exp_size(t, i + 1);
            },
            _ => {},
        }
    }
}

/// A parsed program has fewer unary operators than it has tokens.
pub proof fn lemma_program_size(t: Seq<TokenV>)
    ensures
        spec_parse(t) matches Ok(f) ==> crate::tacky_gen::program_unary_count(f) < t.len(),
{
    if let Ok((f, j)) = function_at(t, 0) {
        let i6 = 6int;
        let i7 = i6 + 1;
        lemma_exp_size(t, i7);
    }
}

// ---------------------------------------------------------------------------
// The programs of the first example: `int <name>(void) { return <value>; }`.

/// The source text `int <name>(void) { return <value>; }`.
pub open spec fn return_program_text(name: Seq<char>, value: nat) -> Seq<char> {
    "int "@ + name + "(void) { return "@ + nat_text(value) + "; }"@
}

/// The tokens of `int <name>(void) { return <value>; }`.
pub open spec fn return_program_tokens(name: Seq<char>, value: i64) -> Seq<TokenV> {
    seq![
        TokenV::KWInt,
        TokenV::Identifier(name),
        TokenV::OpenParen,
        TokenV::KWVoid,
        TokenV::CloseParen,
        TokenV::OpenBrace,
        TokenV::KWReturn,
        TokenV::Constant(value),
        TokenV::Semicolon,
        TokenV::CloseBrace,
    ]
}

/// A piece lexed in front of a rest it is separable from.
proof fn lemma_lex_cons(t: Seq<char>, q: Seq<char>, x: Seq<TokenV>, y: Seq<TokenV>)
    requires
        separable(t, q),
        spec_lex(t) == Ok::<Seq<TokenV>, Seq<char>>(x),
        spec_lex(q) == Ok::<Seq<TokenV>, Seq<char>>(y),
    ensures
        spec_lex(t + q) == Ok::<Seq<TokenV>, Seq<char>>(x + y),
{
    lemma_lex_concat(t, q);
}

/// The program `int <name>(void) { return <value>; }`, for a name that is an identifier
/// and not a keyword and a value of at most `i64::MAX`, lexes to its ten tokens and parses
/// to the function of that name returning that constant.
pub proof fn lemma_parse_return_program(name: Seq<char>, value: i64)
    requires
        well_formed_token(TokenV::Identifier(name)),
        value >= 0,
    ensures
        spec_lex(return_program_text(name, value as nat)) == Ok::<Seq<TokenV>, Seq<char>>(
            return_program_tokens(name, value),
        ),
        spec_parse(return_program_tokens(name, value)) == Ok::<FunctionDefinitionV, Seq<char>>(
            FunctionDefinitionV { name, body: Statement::Return(Exp::Constant(value)) },
        ),
{
    reveal_strlit("int ");
    reveal_strlit("(void) { return ");
    reveal_strlit("; }");
    reveal_strlit("int");
    reveal_strlit("void");
    reveal_strlit("return");
    reveal_strlit(" ");
    reveal_strlit("(");
    reveal_strlit(")");
    reveal_strlit("{");
    reveal_strlit("}");
    reveal_strlit(";");
    let sp = " "@;
    assert(all_space(sp));
    lemma_lex_space(sp);
    let digits = nat_text(value as nat);
    let ident = TokenV::Identifier(name);
    let cst = TokenV::Constant(value);
    lemma_lex_token_source(TokenV::KWInt);
    lemma_lex_token_source(ident);
    lemma_lex_token_source(TokenV::OpenParen);
    lemma_lex_token_source(TokenV::KWVoid);
    lemma_lex_token_source(TokenV::CloseParen);
    lemma_lex_token_source(TokenV::OpenBrace);
    lemma_lex_token_source(TokenV::KWReturn);
    lemma_lex_token_source(cst);
    lemma_lex_token_source(TokenV::Semicolon);
    lemma_lex_token_source(TokenV::CloseBrace);
    assert(token_source(cst) == digits);
    let e = Seq::<TokenV>::empty();
    let r14 = "}"@;
    let r13 = sp + r14;
    lemma_lex_cons(sp, r14, e, seq![TokenV::CloseBrace]);
    let r12 = ";"@ + r13;
    lemma_lex_cons(";"@, r13, seq![TokenV::Semicolon], e + seq![TokenV::CloseBrace]);
    let t12 = seq![TokenV::Semicolon] + (e + seq![TokenV::CloseBrace]);
    let r11 = digits + r12;
    assert(r12[0] == ';');
    lemma_lex_cons(digits, r12, seq![cst], t12);
    let t11 = seq![cst] + t12;
    let r10 = sp + r11;
    lemma_lex_cons(sp, r11, e, t11);
    let r9 = "return"@ + r10;
    assert(r10[0] == ' ');
    lemma_lex_cons("return"@, r10, seq![TokenV::KWReturn], e + t11);
    let t9 = seq![TokenV::KWReturn] + (e + t11);
    let r8 = sp + r9;
    lemma_lex_cons(sp, r9, e, t9);
    let r7 = "{"@ + r8;
    lemma_lex_cons("{"@, r8, seq![TokenV::OpenBrace], e + t9);
    let t7 = seq![TokenV::OpenBrace] + (e + t9);
    let r6 = sp + r7;
    lemma_lex_cons(sp, r7, e, t7);
    let r5 = ")"@ + r6;
    lemma_lex_cons(")"@, r6, seq![TokenV::CloseParen], e + t7);
    let t5 = seq![TokenV::CloseParen] + (e + t7);
    let r4 = "void"@ + r5;
    assert(r5[0] == ')');
    lemma_lex_cons("void"@, r5, seq![TokenV::KWVoid], t5);
    let t4 = seq![TokenV::KWVoid] + t5;
    let r3 = "("@ + r4;
    lemma_lex_cons("("@, r4, seq![TokenV::OpenParen], t4);
    let t3 = seq![TokenV::OpenParen] + t4;
    let r2 = name + r3;
    assert(r3[0] == '(');
    lemma_lex_cons(name, r3, seq![ident], t3);
    let t2 = seq![ident] + t3;
    let r1 = sp + r2;
    lemma_lex_cons(sp, r2, e, t2);
    let r0 = "int"@ + r1;
    assert(r1[0] == ' ');
    lemma_lex_cons("int"@, r1, seq![TokenV::KWInt], e + t2);
    let t0 = seq![TokenV::KWInt] + (e + t2);
    assert(t0 =~= return_program_tokens(name, value));
    assert("int "@ =~= "int"@ + sp);
    assert("(void) { return "@ =~= "("@ + "void"@ + ")"@ + sp + "{"@ + sp + "return"@ + sp);
    assert("; }"@ =~= ";"@ + sp + "}"@);
    assert(return_program_text(name, value as nat) =~= r0);
}

// ---------------------------------------------------------------------------
// Parsing is compositional over the grammar of expressions.

/// The tokens that write an expression without parentheses: a constant, or `-` / `~`
/// in front of the tokens of its operand.
pub open spec fn exp_tokens(e: Exp) -> Seq<TokenV>
    decreases e,
{
    match e {
        Exp::Constant(c) => seq![TokenV::Constant(c)],
        Exp::Unary(UnaryOp::Negate, x) => seq![TokenV::Hyphen] + exp_tokens(*x),
        Exp::Unary(UnaryOp::Complement, x) => seq![TokenV::Tilde] + exp_tokens(*x),
    }
}

/// The tokens of `int <name>(void) { return <e>; }`.
pub open spec fn program_tokens(name: Seq<char>, e: Exp) -> Seq<TokenV> {
    seq![
        TokenV::KWInt,
        TokenV::Identifier(name),
        TokenV::OpenParen,
        TokenV::KWVoid,
        TokenV::CloseParen,
        TokenV::OpenBrace,
        TokenV::KWReturn,
    ] + exp_tokens(e) + seq![TokenV::Semicolon, TokenV::CloseBrace]
}

/// An operator in front of a parsed expression parses to that operator applied to it,
/// ending where the operand ends; an expression in parentheses parses to itself, ending
/// after the `)`. So `-` never gets lost or merged into what follows it, and the value of
/// `- <exp>` is minus the value of `<exp>`, that of `~ <exp>` is `-v - 1`.
pub proof fn lemma_exp_compositional(t: Seq<TokenV>, i: int, e: Exp, j: int)
    requires
        0 <= i < t.len(),
        exp_at(t, i + 1) == Ok::<(Exp, int), Seq<char>>((e, j)),
    ensures
        t[i] == TokenV::Hyphen ==> exp_at(t, i) == Ok::<(Exp, int), Seq<char>>(
            (Exp::Unary(UnaryOp::Negate, Box::new(e)), j),
        ),
        t[i] == TokenV::Tilde ==> exp_at(t, i) == Ok::<(Exp, int), Seq<char>>(
            (Exp::Unary(UnaryOp::Complement, Box::new(e)), j),
        ),
        t[i] == TokenV::OpenParen && j < t.len() && t[j] == TokenV::CloseParen ==> exp_at(t, i)
            == Ok::<(Exp, int), Seq<char>>((e, j + 1)),
        t[i] == TokenV::Hyphen ==> crate::ast::eval_exp(exp_at(t, i)->Ok_0.0) == -crate::ast::eval_exp(e),
        t[i] == TokenV::Tilde ==> crate::ast::eval_exp(exp_at(t, i)->Ok_0.0) == -crate::ast::eval_exp(e) - 1,
{
    lemma_exp_size(t, i + 1);
}

/// The tokens written for any expression parse back to exactly that expression, whatever
/// follows them: every operator is kept, in order.
pub proof fn lemma_parse_exp_tokens(e: Exp, t: Seq<TokenV>, i: int)
    requires
        0 <= i,
        i + exp_tokens(e).len() <= t.len(),
        t.subrange(i, i + exp_tokens(e).len()) == exp_tokens(e),
    ensures
        exp_at(t, i) == Ok::<(Exp, int), Seq<char>>((e, i + exp_tokens(e).len())),
    decreases e,
{
    let w = exp_tokens(e);
    assert(t[i] == t.subrange(i, i + w.len())[0]);
    match e {
        Exp::Constant(c) => {},
        Exp::Unary(op, x) => {
            let wx = exp_tokens(*x);
            assert(w.len() == 1 + wx.len());
            assert(t.subrange(i + 1, i + 1 + wx.len()) =~= wx) by {
                assert forall|k: int| 0 <= k < wx.len() implies t.subrange(i + 1, i + 1 + wx.len())[k]
                    == wx[k] by {
                    assert(t.subrange(i, i + w.len())[k + 1] == w[k + 1]);
                }
            }
            lemma_parse_exp_tokens(*x, t, i + 1);
            lemma_exp_compositional(t, i, *x, i + 1 + wx.len());
        },
    }
}

/// The tokens of `int <name>(void) { return <e>; }` parse to the function of that name
/// returning exactly `e`, for every expression `e`.
pub proof fn lemma_parse_program_tokens(name: Seq<char>, e: Exp)
    ensures
        spec_parse(program_tokens(name, e)) == Ok::<FunctionDefinitionV, Seq<char>>(
            FunctionDefinitionV { name, body: Statement::Return(e) },
        ),
{
    let t = program_tokens(name, e);
    let w = exp_tokens(e);
    let n = w.len() as int;
    assert(t.subrange(7, 7 + n) =~= w);
    lemma_parse_exp_tokens(e, t, 7);
    assert(t[7 + n] == TokenV::Semicolon);
    assert(t[8 + n] == TokenV::CloseBrace);
    assert(t.len() == 9 + w.len());
}

} // verus!
