//! A small C compiler front-to-back pipeline whose passes are verified.
pub mod text;
pub mod tokens;
pub mod lexer;
pub mod ast;
pub mod parser;
pub mod tacky;
pub mod unique_ids;
pub mod tacky_gen;
pub mod assembly;
pub mod codegen;
pub mod replace_pseudos;
pub mod instruction_fixup;
pub mod settings;
pub mod emit;
pub mod driver;
pub mod paths;
