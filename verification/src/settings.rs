use vstd::prelude::*;

use crate::lexer::collect_chars;

verus! {

/// The target platform for code generation.
#[derive(Debug, Clone, Copy, PartialEq, Eq, Structural)]
pub enum Platform {
    Linux,
    OsX,
}

/// Which stage of the compiler to stop after.
#[derive(Debug, Clone, Copy, PartialEq, Eq, Structural)]
pub enum Stage {
    Lex,
    Parse,
    Tacky,
    Codegen,
    Assembly,
    Executable,
}

/// The stage that the command-line flags ask to stop after: the earliest flag
/// given wins (`--lex`, `--parse`, `--tacky`, `--codegen`, `-S`); with none, the
/// whole pipeline runs.
pub open spec fn spec_stage_from_flags(lex: bool, parse: bool, tacky: bool, codegen: bool, assembly: bool) -> Stage {
    if lex {
        Stage::Lex
    } else if parse {
        Stage::Parse
    } else if tacky {
        Stage::Tacky
    } else if codegen {
        Stage::Codegen
    } else if assembly {
        Stage::Assembly
    } else {
        Stage::Executable
    }
}

/// Determine which stage to stop after based on the flags.
pub fn stage_from_flags(lex: bool, parse: bool, tacky: bool, codegen: bool, assembly: bool) -> (s: Stage)
    ensures
        s == spec_stage_from_flags(lex, parse, tacky, codegen, assembly),
{
    if lex {
        Stage::Lex
    } else if parse {
        Stage::Parse
    } else if tacky {
        Stage::Tacky
    } else if codegen {
        Stage::Codegen
    } else if assembly {
        Stage::Assembly
    } else {
        Stage::Executable
    }
}

/// What `str::to_lowercase` gives for a text (Unicode lower-casing).
pub uninterp spec fn lowercase(s: Seq<char>) -> Seq<char>;

/// Trusted: `str::to_lowercase` returns the Unicode lower-case form of the text,
/// a function of the text alone; what that form is, is left to the name `lowercase`.
#[verifier::external_body]
fn to_lowercase(s: &str) -> (r: String)
    ensures
        r@ == lowercase(s@),
{
    s.to_lowercase()
}

/// The platform that the output of `uname` names: macOS when it starts with
/// `darwin` in any case, Linux otherwise.
pub open spec fn spec_platform_from_uname(uname: Seq<char>) -> Platform {
    if "darwin"@.is_prefix_of(lowercase(uname)) {
        Platform::OsX
    } else {
        Platform::Linux
    }
}

/// Decide the platform from the output of `uname`.
pub fn platform_from_uname(uname: &str) -> (p: Platform)
    ensures
        p == spec_platform_from_uname(uname@),
{
    let lower = to_lowercase(uname);
    let chars = collect_chars(lower.as_str());
    proof {
        reveal_strlit("darwin");
    }
    if chars.len() >= 6 && chars[0] == 'd' && chars[1] == 'a' && chars[2] == 'r' && chars[3] == 'w'
        && chars[4] == 'i' && chars[5] == 'n' {
        assert("darwin"@ =~= chars@.take(6));
        Platform::OsX
    } else {
        proof {
            if "darwin"@.is_prefix_of(chars@) {
                assert(chars@[0] == "darwin"@[0]);
                assert(chars@[1] == "darwin"@[1]);
                assert(chars@[2] == "darwin"@[2]);
                assert(chars@[3] == "darwin"@[3]);
                assert(chars@[4] == "darwin"@[4]);
                assert(chars@[5] == "darwin"@[5]);
            }
        }
        Platform::Linux
    }
}

} // verus!
