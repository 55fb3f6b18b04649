use vstd::prelude::*;

use crate::text::{digit_char, nat_text, push_char, push_nat};
use crate::tokens::{tokens_view, Token, TokenV};

verus! {

/// Lexer error with a message indicating what went wrong.
#[derive(Debug)]
pub struct LexError(pub String);

impl LexError {
    /// The full diagnostic: `Lex error: ` followed by the message.
    pub fn to_text(&self) -> (s: String)
        ensures
            s@ == "Lex error: "@ + self.0@,
    {
        let mut s = String::new();
        s.append("Lex error: ");
        s.append(self.0.as_str());
        s
    }
}

// ---------------------------------------------------------------------------
// Character classes (ASCII only, as in the C lexical grammar).

pub open spec fn is_space(c: char) -> bool {
    c == ' ' || c == '\t' || c == '\n' || c == '\x0C' || c == '\r'
}

pub open spec fn is_alpha(c: char) -> bool {
    ('a' <= c && c <= 'z') || ('A' <= c && c <= 'Z')
}

pub open spec fn is_digit(c: char) -> bool {
    '0' <= c && c <= '9'
}

/// A character that may start an identifier: `[A-Za-z_]`.
pub open spec fn is_ident_start(c: char) -> bool {
    is_alpha(c) || c == '_'
}

/// A character that may continue an identifier: `[A-Za-z0-9_]`.
pub open spec fn is_ident_char(c: char) -> bool {
    is_alpha(c) || is_digit(c) || c == '_'
}

/// The numeric value of a decimal digit character.
pub open spec fn digit_value(c: char) -> nat {
    ((c as int) - ('0' as int)) as nat
}

/// The value of a string of decimal digits.
pub open spec fn digits_value(d: Seq<char>) -> nat
    decreases d.len(),
{
    if d.len() == 0 {
        0
    } else {
        digits_value(d.drop_last()) * 10 + digit_value(d.last())
    }
}

/// The end of the longest run of identifier characters starting at `i`.
pub open spec fn ident_end(s: Seq<char>, i: int) -> int
    decreases s.len() - i,
{
    if 0 <= i < s.len() && is_ident_char(s[i]) {
        ident_end(s, i + 1)
    } else {
        i
    }
}

/// The end of the longest run of digits starting at `i`.
pub open spec fn digits_end(s: Seq<char>, i: int) -> int
    decreases s.len() - i,
{
    if 0 <= i < s.len() && is_digit(s[i]) {
        digits_end(s, i + 1)
    } else {
        i
    }
}

/// A word made of identifier characters: a keyword, or else an identifier.
pub open spec fn word_token(w: Seq<char>) -> TokenV {
    if w == "int"@ {
        TokenV::KWInt
    } else if w == "return"@ {
        TokenV::KWReturn
    } else if w == "void"@ {
        TokenV::KWVoid
    } else {
        TokenV::Identifier(w)
    }
}

/// The largest value of an `i64`.
pub open spec fn i64_max() -> nat {
    9223372036854775807
}

pub open spec fn followed_by_ident_message(start: nat) -> Seq<char> {
    "Invalid token: number followed by identifier character at position "@ + nat_text(start)
}

pub open spec fn too_large_message(digits: Seq<char>) -> Seq<char> {
    "Failed to parse integer '"@ + digits + "': number too large to fit in target type"@
}

pub open spec fn unexpected_char_message(c: char, pos: nat) -> Seq<char> {
    "Unexpected character '"@ + seq![c] + "' at position "@ + nat_text(pos)
}

/// `front` followed by what the rest of the lexing gives, or the error of the rest.
pub open spec fn prepend(front: Seq<TokenV>, rest: Result<Seq<TokenV>, Seq<char>>) -> Result<
    Seq<TokenV>,
    Seq<char>,
> {
    match rest {
        Ok(ts) => Ok(front + ts),
        Err(e) => Err(e),
    }
}

/// The tokens of the source text from position `i` on, or the message of the first error.
/// Whitespace is skipped; words and numbers are taken by longest match; `--` is taken before `-`.
pub open spec fn lex_from(s: Seq<char>, i: int) -> Result<Seq<TokenV>, Seq<char>>
    decreases s.len() - i,
{
    if i < 0 || i >= s.len() {
        Ok(seq![])
    } else {
        let c = s[i];
        if is_space(c) {
            lex_from(s, i + 1)
        } else if is_ident_start(c) {
            let e = ident_end(s, i);
            proof {
                lemma_ident_end_bounds(s, i);
            }
            prepend(seq![word_token(s.subrange(i, e))], lex_from(s, e))
        } else if is_digit(c) {
            let e = digits_end(s, i);
            proof {
                lemma_digits_end_bounds(s, i);
            }
            if e < s.len() && is_ident_start(s[e]) {
                Err(followed_by_ident_message(i as nat))
            } else if digits_value(s.subrange(i, e)) > i64_max() {
                Err(too_large_message(s.subrange(i, e)))
            } else {
                prepend(
                    seq![TokenV::Constant(digits_value(s.subrange(i, e)) as i64)],
                    lex_from(s, e),
                )
            }
        } else if c == '(' {
            prepend(seq![TokenV::OpenParen], lex_from(s, i + 1))
        } else if c == ')' {
            prepend(seq![TokenV::CloseParen], lex_from(s, i + 1))
        } else if c == '{' {
            prepend(seq![TokenV::OpenBrace], lex_from(s, i + 1))
        } else if c == '}' {
            prepend(seq![TokenV::CloseBrace], lex_from(s, i + 1))
        } else if c == ';' {
            prepend(seq![TokenV::Semicolon], lex_from(s, i + 1))
        } else if c == '~' {
            prepend(seq![TokenV::Tilde], lex_from(s, i + 1))
        } else if c == '-' {
            if i + 1 < s.len() && s[i + 1] == '-' {
                prepend(seq![TokenV::DoubleHyphen], lex_from(s, i + 2))
            } else {
                prepend(seq![TokenV::Hyphen], lex_from(s, i + 1))
            }
        } else {
            Err(unexpected_char_message(c, i as nat))
        }
    }
}

/// The tokens of a whole source text, or the message of the first lexical error.
pub open spec fn spec_lex(s: Seq<char>) -> Result<Seq<TokenV>, Seq<char>> {
    lex_from(s, 0)
}

pub proof fn lemma_ident_end_bounds(s: Seq<char>, i: int)
    requires
        0 <= i < s.len(),
        is_ident_char(s[i]),
    ensures
        i < ident_end(s, i) <= s.len(),
    decreases s.len() - i,
{
    reveal_with_fuel(ident_end, 2);
    if i + 1 < s.len() && is_ident_char(s[i + 1]) {
        lemma_ident_end_bounds(s, i + 1);
    }
}

pub proof fn lemma_digits_end_bounds(s: Seq<char>, i: int)
    requires
        0 <= i < s.len(),
        is_digit(s[i]),
    ensures
        i < digits_end(s, i) <= s.len(),
    decreases s.len() - i,
{
    reveal_with_fuel(digits_end, 2);
    if i + 1 < s.len() && is_digit(s[i + 1]) {
        lemma_digits_end_bounds(s, i + 1);
    }
}

proof fn lemma_prepend_assoc(a: Seq<TokenV>, b: Seq<TokenV>, r: Result<Seq<TokenV>, Seq<char>>)
    ensures
        prepend(a, prepend(b, r)) == prepend(a + b, r),
{
    if let Ok(ts) = r {
        assert(a + (b + ts) =~= (a + b) + ts);
    }
}

// ---------------------------------------------------------------------------
// Executable character classes.

fn is_space_exec(c: char) -> (b: bool)
    ensures
        b == is_space(c),
{
    c == ' ' || c == '\t' || c == '\n' || c == '\x0C' || c == '\r'
}

fn is_digit_exec(c: char) -> (b: bool)
    ensures
        b == is_digit(c),
{
    '0' <= c && c <= '9'
}

fn is_ident_start_exec(c: char) -> (b: bool)
    ensures
        b == is_ident_start(c),
{
    ('a' <= c && c <= 'z') || ('A' <= c && c <= 'Z') || c == '_'
}

fn is_ident_char_exec(c: char) -> (b: bool)
    ensures
        b == is_ident_char(c),
{
    ('a' <= c && c <= 'z') || ('A' <= c && c <= 'Z') || ('0' <= c && c <= '9') || c == '_'
}

/// The characters of a string, in order.
pub(crate) fn collect_chars(source: &str) -> (v: Vec<char>)
    ensures
        v@ == source@,
{
    let mut v: Vec<char> = Vec::new();
    for c in it: source.chars()
        invariant
            v@ == it.seq().take(it.index() as int),
    {
        v.push(c);
    }
    v
}

proof fn lemma_push_view(v: Seq<Token>, t: Token)
    ensures
        tokens_view(v.push(t)) == tokens_view(v).push(t@),
{
    assert(tokens_view(v.push(t)) =~= tokens_view(v).push(t@));
}

/// After `lex_from(s, i)` was found to be `t` followed by `lex_from(s, j)`,
/// the tokens so far followed by `t` relate the whole lexing to `lex_from(s, j)`.
proof fn lemma_advance(
    s: Seq<char>,
    before: Seq<Token>,
    t: Token,
    i: int,
    j: int,
)
    requires
        spec_lex(s) == prepend(tokens_view(before), lex_from(s, i)),
        lex_from(s, i) == prepend(seq![t@], lex_from(s, j)),
    ensures
        spec_lex(s) == prepend(tokens_view(before.push(t)), lex_from(s, j)),
{
    lemma_prepend_assoc(tokens_view(before), seq![t@], lex_from(s, j));
    lemma_push_view(before, t);
    assert(tokens_view(before) + seq![t@] =~= tokens_view(before).push(t@));
}

/// How the result of the lexer is seen in contracts.
pub open spec fn lex_result_view(r: Result<Vec<Token>, LexError>) -> Result<Seq<TokenV>, Seq<char>> {
    match r {
        Ok(v) => Ok(tokens_view(v@)),
        Err(e) => Err(e.0@),
    }
}

/// The keyword for a word, or an identifier token holding it.
fn word_to_token(word: String) -> (t: Token)
    ensures
        t@ == word_token(word@),
{
    if word == String::from_str("int") {
        Token::KWInt
    } else if word == String::from_str("return") {
        Token::KWReturn
    } else if word == String::from_str("void") {
        Token::KWVoid
    } else {
        Token::Identifier(word)
    }
}

/// Lex the entire source string into a vector of tokens.
///
/// The result is exactly `spec_lex` of the source characters: the tokens, or the
/// message of the first lexical error.
pub fn lex(source: &str) -> (res: Result<Vec<Token>, LexError>)
    ensures
        lex_result_view(res) == spec_lex(source@),
{
    let chars = collect_chars(source);
    let ghost s = source@;
    let n = chars.len();
    let mut tokens: Vec<Token> = Vec::new();
    let mut pos: usize = 0;
    assert(tokens_view(tokens@) =~= seq![]);
    assert(prepend(seq![], lex_from(s, 0)) == lex_from(s, 0)) by {
        if let Ok(ts) = lex_from(s, 0) {
            assert(seq![] + ts =~= ts);
        }
    }
    while pos < n
        invariant
            s == source@,
            chars@ == s,
            n == s.len(),
            pos <= n,
            spec_lex(s) == prepend(tokens_view(tokens@), lex_from(s, pos as int)),
        decreases n - pos,
    {
        let c = chars[pos];
        if is_space_exec(c) {
            pos = pos + 1;
        } else if is_ident_start_exec(c) {
            let start = pos;
            let mut word = String::new();
            while pos < n && is_ident_char_exec(chars[pos])
                invariant
                    chars@ == s,
                    n == s.len(),
                    start <= pos <= n,
                    ident_end(s, start as int) == ident_end(s, pos as int),
                    word@ == s.subrange(start as int, pos as int),
                decreases n - pos,
            {
                push_char(&mut word, chars[pos]);
                pos = pos + 1;
                assert(word@ =~= s.subrange(start as int, pos as int));
            }
            let tok = word_to_token(word);
            proof {
                lemma_ident_end_bounds(s, start as int);
                lemma_advance(s, tokens@, tok, start as int, pos as int);
            }
            tokens.push(tok);
        } else if is_digit_exec(c) {
            let start = pos;
            let mut digits = String::new();
            while pos < n && is_digit_exec(chars[pos])
                invariant
                    chars@ == s,
                    n == s.len(),
                    start <= pos <= n,
                    digits_end(s, start as int) == digits_end(s, pos as int),
                    digits@ == s.subrange(start as int, pos as int),
                    forall|j: int| start <= j < pos ==> is_digit(#[trigger] s[j]),
                decreases n - pos,
            {
                push_char(&mut digits, chars[pos]);
                pos = pos + 1;
                assert(digits@ =~= s.subrange(start as int, pos as int));
            }
            proof {
                lemma_digits_end_bounds(s, start as int);
            }
            if pos < n && is_ident_start_exec(chars[pos]) {
                let mut msg = String::new();
                msg.append("Invalid token: number followed by identifier character at position ");
                push_nat(&mut msg, start as u64);
                assert(digits_end(s, pos as int) == pos as int);
                assert(msg@ =~= followed_by_ident_message(start as nat));
                assert(lex_from(s, start as int) == Err::<Seq<TokenV>, Seq<char>>(
                    followed_by_ident_message(start as nat),
                ));
                return Err(LexError(msg));
            }
            let mut v: i64 = 0;
            let mut overflow = false;
            let mut k = start;
            while k < pos
                invariant
                    chars@ == s,
                    n == s.len(),
                    start <= k <= pos <= n,
                    forall|j: int| start <= j < pos ==> is_digit(#[trigger] s[j]),
                    !overflow ==> v >= 0 && v as int == digits_value(s.subrange(start as int, k as int)),
                    overflow ==> digits_value(s.subrange(start as int, k as int)) > i64_max(),
                decreases pos - k,
            {
                let ghost prev = s.subrange(start as int, k as int);
                let ghost next = s.subrange(start as int, k + 1);
                assert(next.drop_last() =~= prev);
                assert(next.last() == s[k as int]);
                assert(is_digit(s[k as int]));
                let d: i64 = (chars[k] as u32 - '0' as u32) as i64;
                assert(d == digit_value(s[k as int]));
                if !overflow {
                    if v > 922337203685477580 || (v == 922337203685477580 && d > 7) {
                        overflow = true;
                    } else {
                        v = v * 10 + d;
                    }
                }
                k = k + 1;
            }
            if overflow {
                let mut msg = String::new();
                msg.append("Failed to parse integer '");
                msg.append(digits.as_str());
                msg.append("': number too large to fit in target type");
                assert(digits_end(s, pos as int) == pos as int);
                assert(msg@ =~= too_large_message(s.subrange(start as int, pos as int)));
                assert(lex_from(s, start as int) == Err::<Seq<TokenV>, Seq<char>>(
                    too_large_message(s.subrange(start as int, pos as int)),
                ));
                return Err(LexError(msg));
            }
            let tok = Token::Constant(v);
            proof {
                lemma_advance(s, tokens@, tok, start as int, pos as int);
            }
            tokens.push(tok);
        } else if c == '-' {
            if pos + 1 < n && chars[pos + 1] == '-' {
                let tok = Token::DoubleHyphen;
                proof {
                    lemma_advance(s, tokens@, tok, pos as int, pos + 2);
                }
                tokens.push(tok);
                pos = pos + 2;
            } else {
                let tok = Token::Hyphen;
                proof {
                    lemma_advance(s, tokens@, tok, pos as int, pos + 1);
                }
                tokens.push(tok);
                pos = pos + 1;
            }
        } else {
            let tok = if c == '(' {
                Token::OpenParen
            } else if c == ')' {
                Token::CloseParen
            } else if c == '{' {
                Token::OpenBrace
            } else if c == '}' {
                Token::CloseBrace
            } else if c == ';' {
                Token::Semicolon
            } else if c == '~' {
                Token::Tilde
            } else {
                let mut msg = String::new();
                msg.append("Unexpected character '");
                push_char(&mut msg, c);
                msg.append("' at position ");
                push_nat(&mut msg, pos as u64);
                assert(msg@ =~= unexpected_char_message(c, pos as nat));
                return Err(LexError(msg));
            };
            proof {
                lemma_advance(s, tokens@, tok, pos as int, pos + 1);
            }
            tokens.push(tok);
            pos = pos + 1;
        }
    }
    assert(tokens_view(tokens@) + seq![] =~= tokens_view(tokens@));
    Ok(tokens)
}

// ---------------------------------------------------------------------------
// What every lexed token looks like.

/// A token as the lexer can produce it: an identifier is a nonempty
/// `[A-Za-z_][A-Za-z0-9_]*` that is not a keyword, and a constant is not negative.
pub open spec fn well_formed_token(t: TokenV) -> bool {
    match t {
        TokenV::Identifier(w) => {
            &&& w.len() > 0
            &&& is_ident_start(w[0])
            &&& forall|k: int| 0 <= k < w.len() ==> is_ident_char(#[trigger] w[k])
            &&& w != "int"@ && w != "return"@ && w != "void"@
        },
        TokenV::Constant(c) => c >= 0,
        _ => true,
    }
}

proof fn lemma_ident_run(s: Seq<char>, i: int, j: int)
    requires
        0 <= i <= j < ident_end(s, i),
    ensures
        is_ident_char(s[j]),
    decreases j - i,
{
    if i < j {
        assert(0 <= i < s.len() && is_ident_char(s[i]));
        lemma_ident_run(s, i + 1, j);
    }
}

proof fn lemma_lex_from_well_formed(s: Seq<char>, i: int)
    ensures
        lex_from(s, i) matches Ok(ts) ==> forall|k: int| 0 <= k < ts.len() ==> well_formed_token(#[trigger] ts[k]),
    decreases s.len() - i,
{
    if 0 <= i < s.len() {
        let c = s[i];
        if is_space(c) {
            lemma_lex_from_well_formed(s, i + 1);
        } else if is_ident_start(c) {
            let e = ident_end(s, i);
            lemma_ident_end_bounds(s, i);
            lemma_lex_from_well_formed(s, e);
            let w = s.subrange(i, e);
            assert forall|k: int| 0 <= k < w.len() implies is_ident_char(#[trigger] w[k]) by {
                lemma_ident_run(s, i, i + k);
            }
            lemma_prepend_well_formed(word_token(w), lex_from(s, e));
        } else if is_digit(c) {
            let e = digits_end(s, i);
            lemma_digits_end_bounds(s, i);
            lemma_lex_from_well_formed(s, e);
            if !(e < s.len() && is_ident_start(s[e])) && digits_value(s.subrange(i, e)) <= i64_max() {
                lemma_prepend_well_formed(
                    TokenV::Constant(digits_value(s.subrange(i, e)) as i64),
                    lex_from(s, e),
                );
            }
        } else if c == '-' && i + 1 < s.len() && s[i + 1] == '-' {
            lemma_lex_from_well_formed(s, i + 2);
            lemma_prepend_well_formed(TokenV::DoubleHyphen, lex_from(s, i + 2));
        } else {
            lemma_lex_from_well_formed(s, i + 1);
            let t = if c == '(' {
                TokenV::OpenParen
            } else if c == ')' {
                TokenV::CloseParen
            } else if c == '{' {
                TokenV::OpenBrace
            } else if c == '}' {
                TokenV::CloseBrace
            } else if c == ';' {
                TokenV::Semicolon
            } else if c == '~' {
                TokenV::Tilde
            } else {
                TokenV::Hyphen
            };
            lemma_prepend_well_formed(t, lex_from(s, i + 1));
        }
    }
}

proof fn lemma_prepend_well_formed(t: TokenV, r: Result<Seq<TokenV>, Seq<char>>)
    requires
        well_formed_token(t),
        r matches Ok(ts) ==> forall|k: int| 0 <= k < ts.len() ==> well_formed_token(#[trigger] ts[k]),
    ensures
        prepend(seq![t], r) matches Ok(ts) ==> forall|k: int| 0 <= k < ts.len() ==> well_formed_token(#[trigger] ts[k]),
{
    if let Ok(rest) = r {
        assert forall|k: int| 0 <= k < (seq![t] + rest).len() implies well_formed_token(
            #[trigger] (seq![t] + rest)[k],
        ) by {
            if k > 0 {
                assert((seq![t] + rest)[k] == rest[k - 1]);
            }
        }
    }
}

/// Every token the lexer produces is well formed: identifiers are nonempty
/// `[A-Za-z_][A-Za-z0-9_]*` words that are never keywords, and constants are not negative.
pub proof fn lemma_lex_well_formed(s: Seq<char>)
    ensures
        spec_lex(s) matches Ok(ts) ==> forall|k: int| 0 <= k < ts.len() ==> well_formed_token(#[trigger] ts[k]),
{
    lemma_lex_from_well_formed(s, 0);
}

// ---------------------------------------------------------------------------
// Lexing texts put together.

/// Both lexings give the same tokens, or both fail (the positions in their messages may
/// differ).
pub open spec fn same_outcome(a: Result<Seq<TokenV>, Seq<char>>, b: Result<Seq<TokenV>, Seq<char>>) -> bool {
    match (a, b) {
        (Ok(x), Ok(y)) => x == y,
        (Err(_), Err(_)) => true,
        _ => false,
    }
}

/// The tokens of one lexing followed by those of another, or the first error.
pub open spec fn join(a: Result<Seq<TokenV>, Seq<char>>, b: Result<Seq<TokenV>, Seq<char>>) -> Result<
    Seq<TokenV>,
    Seq<char>,
> {
    match a {
        Ok(x) => prepend(x, b),
        Err(e) => Err(e),
    }
}

/// Every character is ASCII whitespace.
pub open spec fn all_space(w: Seq<char>) -> bool {
    forall|k: int| 0 <= k < w.len() ==> is_space(#[trigger] w[k])
}

/// No token can run from the end of `t` into the start of `q`: one of them is empty, or
/// on one side of the seam stands a character that neither continues a word or a number
/// nor makes `--`.
pub open spec fn separable(t: Seq<char>, q: Seq<char>) -> bool {
    ||| t.len() == 0
    ||| q.len() == 0
    ||| !is_ident_char(t.last()) && t.last() != '-'
    ||| !is_ident_char(q[0]) && q[0] != '-'
}

proof fn lemma_same_outcome_refl(a: Result<Seq<TokenV>, Seq<char>>)
    ensures
        same_outcome(a, a),
{
}

proof fn lemma_same_outcome_trans(
    a: Result<Seq<TokenV>, Seq<char>>,
    b: Result<Seq<TokenV>, Seq<char>>,
    c: Result<Seq<TokenV>, Seq<char>>,
)
    requires
        same_outcome(a, b),
        same_outcome(b, c),
    ensures
        same_outcome(a, c),
{
}

proof fn lemma_same_outcome_prepend(
    x: Seq<TokenV>,
    a: Result<Seq<TokenV>, Seq<char>>,
    b: Result<Seq<TokenV>, Seq<char>>,
)
    requires
        same_outcome(a, b),
    ensures
        same_outcome(prepend(x, a), prepend(x, b)),
{
}

proof fn lemma_same_outcome_join(
    l: Result<Seq<TokenV>, Seq<char>>,
    a: Result<Seq<TokenV>, Seq<char>>,
    b: Result<Seq<TokenV>, Seq<char>>,
)
    requires
        same_outcome(a, b),
    ensures
        same_outcome(join(l, a), join(l, b)),
{
}

proof fn lemma_join_prepend(
    x: Seq<TokenV>,
    l: Result<Seq<TokenV>, Seq<char>>,
    r: Result<Seq<TokenV>, Seq<char>>,
)
    ensures
        join(prepend(x, l), r) == prepend(x, join(l, r)),
{
    if let Ok(ts) = l {
        lemma_prepend_assoc(x, ts, r);
    }
}

proof fn lemma_prepend_empty(r: Result<Seq<TokenV>, Seq<char>>)
    ensures
        prepend(seq![], r) == r,
        join(r, Ok(seq![])) == r,
{
    if let Ok(ts) = r {
        assert(Seq::<TokenV>::empty() + ts =~= ts);
        assert(ts + Seq::<TokenV>::empty() =~= ts);
    }
}

proof fn lemma_ident_end_shift(p: Seq<char>, t: Seq<char>, i: int)
    requires
        0 <= i <= t.len(),
    ensures
        ident_end(p + t, p.len() + i) == p.len() + ident_end(t, i),
    decreases t.len() - i,
{
    if i < t.len() {
        assert((p + t)[p.len() + i] == t[i]);
        lemma_ident_end_shift(p, t, i + 1);
    }
}

proof fn lemma_digits_end_shift(p: Seq<char>, t: Seq<char>, i: int)
    requires
        0 <= i <= t.len(),
    ensures
        digits_end(p + t, p.len() + i) == p.len() + digits_end(t, i),
    decreases t.len() - i,
{
    if i < t.len() {
        assert((p + t)[p.len() + i] == t[i]);
        lemma_digits_end_shift(p, t, i + 1);
    }
}

proof fn lemma_ident_end_prefix(t: Seq<char>, q: Seq<char>, i: int)
    requires
        separable(t, q),
        0 <= i < t.len(),
    ensures
        ident_end(t + q, i) == ident_end(t, i),
    decreases t.len() - i,
{
    assert((t + q)[i] == t[i]);
    if is_ident_char(t[i]) {
        if i + 1 < t.len() {
            lemma_ident_end_prefix(t, q, i + 1);
        } else {
            assert(t.last() == t[i]);
            if q.len() > 0 {
                assert((t + q)[t.len() as int] == q[0]);
            }
        }
    }
}

proof fn lemma_digits_end_prefix(t: Seq<char>, q: Seq<char>, i: int)
    requires
        separable(t, q),
        0 <= i < t.len(),
    ensures
        digits_end(t + q, i) == digits_end(t, i),
    decreases t.len() - i,
{
    assert((t + q)[i] == t[i]);
    if is_digit(t[i]) {
        if i + 1 < t.len() {
            lemma_digits_end_prefix(t, q, i + 1);
        } else {
            assert(t.last() == t[i]);
            if q.len() > 0 {
                assert((t + q)[t.len() as int] == q[0]);
            }
        }
    }
}

/// Lexing a suffix of a text gives what lexing the whole text gives from there on.
proof fn lemma_lex_suffix(p: Seq<char>, t: Seq<char>, i: int)
    requires
        0 <= i <= t.len(),
    ensures
        same_outcome(lex_from(p + t, p.len() + i), lex_from(t, i)),
    decreases t.len() - i,
{
    let s = p + t;
    let j = p.len() + i;
    if i < t.len() {
        let c = t[i];
        assert(s[j] == c);
        if is_space(c) {
            lemma_lex_suffix(p, t, i + 1);
        } else if is_ident_start(c) {
            let e = ident_end(t, i);
            lemma_ident_end_bounds(t, i);
            lemma_ident_end_shift(p, t, i);
            assert(s.subrange(j, p.len() + e) =~= t.subrange(i, e));
            lemma_lex_suffix(p, t, e);
            lemma_same_outcome_prepend(seq![word_token(t.subrange(i, e))], lex_from(s, p.len() + e), lex_from(t, e));
        } else if is_digit(c) {
            let e = digits_end(t, i);
            lemma_digits_end_bounds(t, i);
            lemma_digits_end_shift(p, t, i);
            assert(s.subrange(j, p.len() + e) =~= t.subrange(i, e));
            if e < t.len() {
                assert(s[p.len() + e] == t[e]);
            }
            lemma_lex_suffix(p, t, e);
            lemma_same_outcome_prepend(
                seq![TokenV::Constant(digits_value(t.subrange(i, e)) as i64)],
                lex_from(s, p.len() + e),
                lex_from(t, e),
            );
        } else if c == '-' {
            if i + 1 < t.len() {
                assert(s[j + 1] == t[i + 1]);
            }
            lemma_lex_suffix(p, t, i + 1);
            if i + 2 <= t.len() {
                lemma_lex_suffix(p, t, i + 2);
            }
            lemma_same_outcome_prepend(seq![TokenV::Hyphen], lex_from(s, j + 1), lex_from(t, i + 1));
            if i + 2 <= t.len() {
                lemma_same_outcome_prepend(
                    seq![TokenV::DoubleHyphen],
                    lex_from(s, j + 2),
                    lex_from(t, i + 2),
                );
            }
        } else {
            lemma_lex_suffix(p, t, i + 1);
            let x = if c == '(' {
                TokenV::OpenParen
            } else if c == ')' {
                TokenV::CloseParen
            } else if c == '{' {
                TokenV::OpenBrace
            } else if c == '}' {
                TokenV::CloseBrace
            } else if c == ';' {
                TokenV::Semicolon
            } else {
                TokenV::Tilde
            };
            lemma_same_outcome_prepend(seq![x], lex_from(s, j + 1), lex_from(t, i + 1));
        }
    }
}

/// Lexing a text followed by one it is separable from gives, up to the seam, what lexing
/// the first text alone gives.
proof fn lemma_lex_prefix(t: Seq<char>, q: Seq<char>, i: int)
    requires
        separable(t, q),
        0 <= i <= t.len(),
    ensures
        same_outcome(lex_from(t + q, i), join(lex_from(t, i), lex_from(t + q, t.len() as int))),
    decreases t.len() - i,
{
    let s = t + q;
    if i == t.len() {
        lemma_prepend_empty(lex_from(s, i));
        lemma_same_outcome_refl(lex_from(s, i));
    } else {
        let c = t[i];
        assert(s[i] == c);
        let r = lex_from(s, t.len() as int);
        if is_space(c) {
            lemma_lex_prefix(t, q, i + 1);
        } else if is_ident_start(c) {
            let e = ident_end(t, i);
            lemma_ident_end_bounds(t, i);
            lemma_ident_end_prefix(t, q, i);
            assert(s.subrange(i, e) =~= t.subrange(i, e));
            lemma_lex_prefix(t, q, e);
            let x = seq![word_token(t.subrange(i, e))];
            lemma_join_prepend(x, lex_from(t, e), r);
            lemma_same_outcome_prepend(x, lex_from(s, e), join(lex_from(t, e), r));
        } else if is_digit(c) {
            let e = digits_end(t, i);
            lemma_digits_end_bounds(t, i);
            lemma_digits_end_prefix(t, q, i);
            assert(s.subrange(i, e) =~= t.subrange(i, e));
            if e < t.len() {
                assert(s[e] == t[e]);
            } else if q.len() > 0 {
                assert(t.last() == t[e - 1]);
                assert(is_digit(t[e - 1])) by {
                    reveal_with_fuel(digits_end, 1);
                    assert(digits_end(t, e - 1) == digits_end(t, i)) by {
                        lemma_digits_run_end(t, i, e - 1);
                    }
                }
                assert(s[e] == q[0]);
            }
            lemma_lex_prefix(t, q, e);
            let x = seq![TokenV::Constant(digits_value(t.subrange(i, e)) as i64)];
            lemma_join_prepend(x, lex_from(t, e), r);
            lemma_same_outcome_prepend(x, lex_from(s, e), join(lex_from(t, e), r));
        } else if c == '-' {
            if i + 1 < t.len() {
                assert(s[i + 1] == t[i + 1]);
            } else if q.len() > 0 {
                assert(t.last() == c);
                assert(s[i + 1] == q[0]);
            }
            lemma_lex_prefix(t, q, i + 1);
            lemma_join_prepend(seq![TokenV::Hyphen], lex_from(t, i + 1), r);
            lemma_same_outcome_prepend(seq![TokenV::Hyphen], lex_from(s, i + 1), join(lex_from(t, i + 1), r));
            if i + 2 <= t.len() {
                lemma_lex_prefix(t, q, i + 2);
                lemma_join_prepend(seq![TokenV::DoubleHyphen], lex_from(t, i + 2), r);
                lemma_same_outcome_prepend(
                    seq![TokenV::DoubleHyphen],
                    lex_from(s, i + 2),
                    join(lex_from(t, i + 2), r),
                );
            }
        } else {
            lemma_lex_prefix(t, q, i + 1);
            let x = if c == '(' {
                TokenV::OpenParen
            } else if c == ')' {
                TokenV::CloseParen
            } else if c == '{' {
                TokenV::OpenBrace
            } else if c == '}' {
                TokenV::CloseBrace
            } else if c == ';' {
                TokenV::Semicolon
            } else {
                TokenV::Tilde
            };
            lemma_join_prepend(seq![x], lex_from(t, i + 1), r);
            lemma_same_outcome_prepend(seq![x], lex_from(s, i + 1), join(lex_from(t, i + 1), r));
        }
    }
}

/// Inside a run of digits that starts at `i`, every position ends at the same place.
proof fn lemma_digits_run_end(t: Seq<char>, i: int, k: int)
    requires
        0 <= i <= k < digits_end(t, i),
    ensures
        digits_end(t, k) == digits_end(t, i),
        is_digit(t[k]),
    decreases k - i,
{
    assert(0 <= i < t.len() && is_digit(t[i]));
    if i < k {
        lemma_digits_run_end(t, i + 1, k);
    }
}

proof fn lemma_lex_skip_space(s: Seq<char>, i: int, j: int)
    requires
        0 <= i <= j <= s.len(),
        forall|k: int| i <= k < j ==> is_space(#[trigger] s[k]),
    ensures
        lex_from(s, i) == lex_from(s, j),
    decreases j - i,
{
    if i < j {
        lemma_lex_skip_space(s, i + 1, j);
    }
}

/// Whitespace alone lexes to no token.
pub proof fn lemma_lex_space(w: Seq<char>)
    requires
        all_space(w),
    ensures
        spec_lex(w) == Ok::<Seq<TokenV>, Seq<char>>(seq![]),
{
    lemma_lex_skip_space(w, 0, w.len() as int);
}

/// Lexing two texts put together, where no token can run across the seam, gives the
/// tokens of the first followed by those of the second; it fails exactly when lexing one
/// of them fails.
pub proof fn lemma_lex_concat(t: Seq<char>, q: Seq<char>)
    requires
        separable(t, q),
    ensures
        same_outcome(spec_lex(t + q), join(spec_lex(t), spec_lex(q))),
{
    lemma_lex_prefix(t, q, 0);
    assert(t + q =~= t + q);
    lemma_lex_suffix(t, q, 0);
    lemma_same_outcome_join(lex_from(t, 0), lex_from(t + q, t.len() as int), lex_from(q, 0));
    lemma_same_outcome_trans(
        lex_from(t + q, 0),
        join(lex_from(t, 0), lex_from(t + q, t.len() as int)),
        join(lex_from(t, 0), lex_from(q, 0)),
    );
}

/// Lexing two texts joined by nonempty whitespace gives the tokens of the first followed
/// by those of the second (no word, number or `--` spans the whitespace); it fails
/// exactly when lexing one of them fails.
pub proof fn lemma_lex_join_space(a: Seq<char>, w: Seq<char>, b: Seq<char>)
    requires
        all_space(w),
        w.len() > 0,
    ensures
        same_outcome(spec_lex(a + w + b), join(spec_lex(a), spec_lex(b))),
{
    assert(a + w + b =~= a + (w + b));
    assert((w + b)[0] == w[0]);
    assert(is_space(w[0]));
    lemma_lex_concat(a, w + b);
    assert(w.last() == w[w.len() - 1]);
    lemma_lex_concat(w, b);
    lemma_lex_space(w);
    lemma_prepend_empty(spec_lex(b));
    lemma_same_outcome_join(spec_lex(a), spec_lex(w + b), spec_lex(b));
    lemma_same_outcome_trans(
        spec_lex(a + (w + b)),
        join(spec_lex(a), spec_lex(w + b)),
        join(spec_lex(a), spec_lex(b)),
    );
}

/// Whitespace does not change the tokens: adding whitespace at the start or the end of a
/// text, or putting one nonempty run of whitespace in place of another, gives the same
/// tokens, and fails exactly when the text does.
pub proof fn lemma_lex_whitespace(a: Seq<char>, w1: Seq<char>, w2: Seq<char>, b: Seq<char>)
    requires
        all_space(w1),
        all_space(w2),
        w1.len() > 0,
        w2.len() > 0,
    ensures
        same_outcome(spec_lex(a + w1 + b), spec_lex(a + w2 + b)),
        same_outcome(spec_lex(w1 + b), spec_lex(b)),
        same_outcome(spec_lex(a + w1), spec_lex(a)),
{
    lemma_lex_join_space(a, w1, b);
    lemma_lex_join_space(a, w2, b);
    lemma_same_outcome_trans(
        spec_lex(a + w1 + b),
        join(spec_lex(a), spec_lex(b)),
        spec_lex(a + w2 + b),
    );
    let e = Seq::<char>::empty();
    lemma_lex_join_space(e, w1, b);
    assert(e + w1 + b =~= w1 + b);
    lemma_lex_space(e);
    lemma_prepend_empty(spec_lex(b));
    lemma_lex_join_space(a, w1, e);
    assert(a + w1 + e =~= a + w1);
    lemma_lex_space(e);
    lemma_prepend_empty(spec_lex(a));
}

// ---------------------------------------------------------------------------
// Printing tokens back as source text.

/// The source text of a token: an identifier is its name, a constant its decimal digits,
/// every other token its keyword or punctuation.
pub open spec fn token_source(t: TokenV) -> Seq<char> {
    match t {
        TokenV::Identifier(w) => w,
        TokenV::Constant(v) => nat_text(v as nat),
        TokenV::KWInt => "int"@,
        TokenV::KWReturn => "return"@,
        TokenV::KWVoid => "void"@,
        TokenV::OpenParen => "("@,
        TokenV::CloseParen => ")"@,
        TokenV::OpenBrace => "{"@,
        TokenV::CloseBrace => "}"@,
        TokenV::Semicolon => ";"@,
        TokenV::Tilde => "~"@,
        TokenV::Hyphen => "-"@,
        TokenV::DoubleHyphen => "--"@,
    }
}

/// The source texts of tokens, one space between each two.
pub open spec fn tokens_source(ts: Seq<TokenV>) -> Seq<char>
    decreases ts.len(),
{
    if ts.len() == 0 {
        seq![]
    } else if ts.len() == 1 {
        token_source(ts[0])
    } else {
        tokens_source(ts.drop_last()) + " "@ + token_source(ts.last())
    }
}

proof fn lemma_digit_char(d: nat)
    requires
        d < 10,
    ensures
        is_digit(digit_char(d)),
        digit_value(digit_char(d)) == d,
{
}

proof fn lemma_nat_text_digits(n: nat)
    ensures
        nat_text(n).len() > 0,
        forall|k: int| 0 <= k < nat_text(n).len() ==> is_digit(#[trigger] nat_text(n)[k]),
        digits_value(nat_text(n)) == n,
    decreases n,
{
    lemma_digit_char(n % 10);
    if n >= 10 {
        lemma_nat_text_digits(n / 10);
        let t = nat_text(n);
        assert(t.drop_last() =~= nat_text(n / 10));
        assert(t.last() == digit_char(n % 10));
        assert((n / 10) * 10 + n % 10 == n) by (nonlinear_arith);
        assert forall|k: int| 0 <= k < t.len() implies is_digit(#[trigger] t[k]) by {
            if k < t.len() - 1 {
                assert(t[k] == nat_text(n / 10)[k]);
            }
        }
    } else {
        assert(nat_text(n).drop_last() =~= Seq::<char>::empty());
        assert(digits_value(Seq::<char>::empty()) == 0);
        assert(nat_text(n).last() == digit_char(n));
    }
}

proof fn lemma_ident_end_all(w: Seq<char>, i: int)
    requires
        0 <= i <= w.len(),
        forall|k: int| 0 <= k < w.len() ==> is_ident_char(#[trigger] w[k]),
    ensures
        ident_end(w, i) == w.len(),
    decreases w.len() - i,
{
    if i < w.len() {
        lemma_ident_end_all(w, i + 1);
    }
}

proof fn lemma_digits_end_all(w: Seq<char>, i: int)
    requires
        0 <= i <= w.len(),
        forall|k: int| 0 <= k < w.len() ==> is_digit(#[trigger] w[k]),
    ensures
        digits_end(w, i) == w.len(),
    decreases w.len() - i,
{
    if i < w.len() {
        lemma_digits_end_all(w, i + 1);
    }
}

/// A word lexes to its word token.
proof fn lemma_lex_word(w: Seq<char>)
    requires
        w.len() > 0,
        is_ident_start(w[0]),
        forall|k: int| 0 <= k < w.len() ==> is_ident_char(#[trigger] w[k]),
    ensures
        spec_lex(w) == Ok::<Seq<TokenV>, Seq<char>>(seq![word_token(w)]),
{
    lemma_ident_end_all(w, 0);
    assert(!is_space(w[0]));
    assert(lex_from(w, w.len() as int) == Ok::<Seq<TokenV>, Seq<char>>(seq![]));
    assert(w.subrange(0, w.len() as int) =~= w);
    assert(seq![word_token(w)] + Seq::<TokenV>::empty() =~= seq![word_token(w)]);
}

/// The source text of a well-formed token lexes back to that token.
pub proof fn lemma_lex_token_source(t: TokenV)
    requires
        well_formed_token(t),
    ensures
        spec_lex(token_source(t)) == Ok::<Seq<TokenV>, Seq<char>>(seq![t]),
{
    let src = token_source(t);
    reveal_with_fuel(lex_from, 2);
    match t {
        TokenV::Identifier(w) => {
            lemma_lex_word(w);
        },
        TokenV::Constant(v) => {
            let n = v as nat;
            lemma_nat_text_digits(n);
            lemma_digits_end_all(src, 0);
            assert(src.subrange(0, src.len() as int) =~= src);
            assert(seq![t] + Seq::<TokenV>::empty() =~= seq![t]);
        },
        TokenV::KWInt => {
            reveal_strlit("int");
            lemma_lex_word("int"@);
        },
        TokenV::KWReturn => {
            reveal_strlit("return");
            reveal_strlit("int");
            lemma_lex_word("return"@);
            assert("return"@.len() != "int"@.len());
        },
        TokenV::KWVoid => {
            reveal_strlit("void");
            reveal_strlit("int");
            reveal_strlit("return");
            lemma_lex_word("void"@);
            assert("void"@.len() != "return"@.len());
            assert("void"@[0] != "int"@[0]);
        },
        TokenV::DoubleHyphen => {
            reveal_strlit("--");
            reveal_with_fuel(lex_from, 3);
            assert(seq![t] + Seq::<TokenV>::empty() =~= seq![t]);
        },
        _ => {
            reveal_strlit("(");
            reveal_strlit(")");
            reveal_strlit("{");
            reveal_strlit("}");
            reveal_strlit(";");
            reveal_strlit("~");
            reveal_strlit("-");
            assert(seq![t] + Seq::<TokenV>::empty() =~= seq![t]);
        },
    }
}

/// Printing well-formed tokens with a space between each two and lexing the text again
/// gives the same tokens.
pub proof fn lemma_lex_tokens_source(ts: Seq<TokenV>)
    requires
        forall|k: int| 0 <= k < ts.len() ==> well_formed_token(#[trigger] ts[k]),
    ensures
        spec_lex(tokens_source(ts)) == Ok::<Seq<TokenV>, Seq<char>>(ts),
    decreases ts.len(),
{
    if ts.len() == 0 {
        lemma_lex_space(seq![]);
        assert(tokens_source(ts) =~= Seq::<char>::empty());
        assert(ts =~= Seq::<TokenV>::empty());
    } else if ts.len() == 1 {
        lemma_lex_token_source(ts[0]);
        assert(ts =~= seq![ts[0]]);
    } else {
        let init = ts.drop_last();
        assert forall|k: int| 0 <= k < init.len() implies well_formed_token(#[trigger] init[k]) by {
            assert(init[k] == ts[k]);
        }
        lemma_lex_tokens_source(init);
        assert(well_formed_token(ts[ts.len() - 1]));
        lemma_lex_token_source(ts.last());
        reveal_strlit(" ");
        assert(all_space(" "@));
        lemma_lex_join_space(tokens_source(init), " "@, token_source(ts.last()));
        assert(init + seq![ts.last()] =~= ts);
    }
}

/// Printing the tokens of a text with a space between each two and lexing again gives
/// the same tokens.
pub proof fn lemma_lex_round_trip(s: Seq<char>)
    ensures
        spec_lex(s) matches Ok(ts) ==> spec_lex(tokens_source(ts)) == Ok::<Seq<TokenV>, Seq<char>>(ts),
{
    lemma_lex_well_formed(s);
    if let Ok(ts) = spec_lex(s) {
        lemma_lex_tokens_source(ts);
    }
}

// ---------------------------------------------------------------------------
// Words.

/// `[A-Za-z_][A-Za-z0-9_]*`, with the character ranges written out.
pub open spec fn is_word(w: Seq<char>) -> bool {
    &&& w.len() > 0
    &&& ('A' <= w[0] <= 'Z' || 'a' <= w[0] <= 'z' || w[0] == '_')
    &&& forall|k: int|
        0 <= k < w.len() ==> ('A' <= #[trigger] w[k] <= 'Z' || 'a' <= w[k] <= 'z' || '0' <= w[k] <= '9'
            || w[k] == '_')
}

/// Every word of `[A-Za-z_][A-Za-z0-9_]*` other than `int`, `return` and `void` lexes
/// to exactly one identifier holding that word, standing alone or with nonempty
/// whitespace on both sides of it between any two texts; the keywords lex to their
/// keyword tokens.
pub proof fn lemma_lex_identifier(w: Seq<char>, a: Seq<char>, s1: Seq<char>, s2: Seq<char>, b: Seq<char>)
    requires
        is_word(w),
        all_space(s1),
        all_space(s2),
        s1.len() > 0,
        s2.len() > 0,
    ensures
        w != "int"@ && w != "return"@ && w != "void"@ ==> spec_lex(w) == Ok::<Seq<TokenV>, Seq<char>>(
            seq![TokenV::Identifier(w)],
        ),
        w != "int"@ && w != "return"@ && w != "void"@ ==> same_outcome(
            spec_lex(a + s1 + w + s2 + b),
            join(spec_lex(a), prepend(seq![TokenV::Identifier(w)], spec_lex(b))),
        ),
        w == "int"@ ==> spec_lex(w) == Ok::<Seq<TokenV>, Seq<char>>(seq![TokenV::KWInt]),
        w == "return"@ ==> spec_lex(w) == Ok::<Seq<TokenV>, Seq<char>>(seq![TokenV::KWReturn]),
        w == "void"@ ==> spec_lex(w) == Ok::<Seq<TokenV>, Seq<char>>(seq![TokenV::KWVoid]),
{
    assert(is_ident_start(w[0]));
    assert forall|k: int| 0 <= k < w.len() implies is_ident_char(#[trigger] w[k]) by {}
    lemma_lex_word(w);
    reveal_strlit("int");
    reveal_strlit("return");
    reveal_strlit("void");
    if w != "int"@ && w != "return"@ && w != "void"@ {
        // a + s1 + w + s2 + b is a + s1 + (w + s2 + b)
        assert(a + s1 + w + s2 + b =~= a + s1 + (w + s2 + b));
        lemma_lex_join_space(a, s1, w + s2 + b);
        lemma_lex_join_space(w, s2, b);
        lemma_same_outcome_join(spec_lex(a), spec_lex(w + s2 + b), join(spec_lex(w), spec_lex(b)));
        lemma_same_outcome_trans(
            spec_lex(a + s1 + (w + s2 + b)),
            join(spec_lex(a), spec_lex(w + s2 + b)),
            join(spec_lex(a), join(spec_lex(w), spec_lex(b))),
        );
    }
}

} // verus!
