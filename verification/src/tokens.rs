use vstd::prelude::*;

use crate::text::{int_text, push_int};

verus! {

/// The lexical elements of the C subset: every token the lexer can produce.
#[derive(Debug, Clone, PartialEq)]
pub enum Token {
    // Tokens with values
    Identifier(String),
    Constant(i64),
    // Keywords
    KWInt,
    KWReturn,
    KWVoid,
    // Punctuation and operators
    OpenParen,
    CloseParen,
    OpenBrace,
    CloseBrace,
    Semicolon,
    Tilde,
    Hyphen,
    DoubleHyphen,
}

/// The mathematical model of a token: an identifier is its sequence of characters.
pub enum TokenV {
    Identifier(Seq<char>),
    Constant(i64),
    KWInt,
    KWReturn,
    KWVoid,
    OpenParen,
    CloseParen,
    OpenBrace,
    CloseBrace,
    Semicolon,
    Tilde,
    Hyphen,
    DoubleHyphen,
}

impl View for Token {
    type V = TokenV;

    open spec fn view(&self) -> TokenV {
        match self {
            Token::Identifier(s) => TokenV::Identifier(s@),
            Token::Constant(c) => TokenV::Constant(*c),
            Token::KWInt => TokenV::KWInt,
            Token::KWReturn => TokenV::KWReturn,
            Token::KWVoid => TokenV::KWVoid,
            Token::OpenParen => TokenV::OpenParen,
            Token::CloseParen => TokenV::CloseParen,
            Token::OpenBrace => TokenV::OpenBrace,
            Token::CloseBrace => TokenV::CloseBrace,
            Token::Semicolon => TokenV::Semicolon,
            Token::Tilde => TokenV::Tilde,
            Token::Hyphen => TokenV::Hyphen,
            Token::DoubleHyphen => TokenV::DoubleHyphen,
        }
    }
}

/// The models of a sequence of tokens.
pub open spec fn tokens_view(v: Seq<Token>) -> Seq<TokenV> {
    v.map_values(|t: Token| t@)
}

/// How a token is written in diagnostics.
pub open spec fn token_text(t: TokenV) -> Seq<char> {
    match t {
        TokenV::Identifier(name) => "Identifier("@ + name + ")"@,
        TokenV::Constant(val) => "Constant("@ + int_text(val as int) + ")"@,
        TokenV::KWInt => "int"@,
        TokenV::KWReturn => "return"@,
        TokenV::KWVoid => "void"@,
        TokenV::OpenParen => "("@,
        TokenV::CloseParen => ")"@,
        TokenV::OpenBrace => "{"@,
        TokenV::CloseBrace => "}"@,
        TokenV::Semicolon => ";"@,
        TokenV::Tilde => "~"@,
        TokenV::Hyphen => "-"@,
        TokenV::DoubleHyphen => "--"@,
    }
}

impl Token {
    /// Appends how this token is written in diagnostics to `out`.
    pub fn write_text(&self, out: &mut String)
        ensures
            final(out)@ == old(out)@ + token_text(self@),
    {
        match self {
            Token::Identifier(name) => {
                out.append("Identifier(");
                out.append(name.as_str());
                out.append(")");
            },
            Token::Constant(val) => {
                out.append("Constant(");
                push_int(out, *val);
                out.append(")");
            },
            Token::KWInt => out.append("int"),
            Token::KWReturn => out.append("return"),
            Token::KWVoid => out.append("void"),
            Token::OpenParen => out.append("("),
            Token::CloseParen => out.append(")"),
            Token::OpenBrace => out.append("{"),
            Token::CloseBrace => out.append("}"),
            Token::Semicolon => out.append(";"),
            Token::Tilde => out.append("~"),
            Token::Hyphen => out.append("-"),
            Token::DoubleHyphen => out.append("--"),
        }
    }

    /// How this token is written in diagnostics (e.g. `Identifier(main)`, `int`, `;`).
    pub fn to_text(&self) -> (s: String)
        ensures
            s@ == token_text(self@),
    {
        let mut s = String::new();
        self.write_text(&mut s);
        assert(s@ =~= token_text(self@));
        s
    }

    /// A copy of this token with the same model.
    pub fn duplicate(&self) -> (t: Token)
        ensures
            t@ == self@,
    {
        match self {
            Token::Identifier(name) => Token::Identifier(name.clone()),
            Token::Constant(val) => Token::Constant(*val),
            Token::KWInt => Token::KWInt,
            Token::KWReturn => Token::KWReturn,
            Token::KWVoid => Token::KWVoid,
            Token::OpenParen => Token::OpenParen,
            Token::CloseParen => Token::CloseParen,
            Token::OpenBrace => Token::OpenBrace,
            Token::CloseBrace => Token::CloseBrace,
            Token::Semicolon => Token::Semicolon,
            Token::Tilde => Token::Tilde,
            Token::Hyphen => Token::Hyphen,
            Token::DoubleHyphen => Token::DoubleHyphen,
        }
    }
}

} // verus!
