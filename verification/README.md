# lily

A compiler for a small subset of C (`int main(void) { return <exp>; }` with the
unary operators `-` and `~`), whose passes are verified with Verus.

`src/` is the library; every pass has a contract that states exactly what it
produces, over mathematical models of the IRs:

- `lexer`, `tokens`: source text to tokens (`spec_lex`).
- `parser`, `ast`: tokens to an AST by recursive descent (`spec_parse`).
- `tacky_gen`, `tacky`, `unique_ids`: AST to three-address code with fresh temporaries.
- `codegen`, `assembly`: TACKY to assembly with pseudo-registers.
- `replace_pseudos`: pseudo-registers to stack slots, in order of first occurrence.
- `instruction_fixup`: frame allocation and memory-to-memory moves through `R10`.
- `emit`: AT&T x86-64 text.
- `driver`, `settings`, `paths`: the pipeline up to a chosen stage, and file names.

Each IR has a small semantics (`run`) over mathematical integers (`-x` and `~x = -x - 1`,
without the 32-bit wrap-around of the `movl`/`negl`/`notl` the target executes); the proof
functions `lemma_*_correct` show that every pass preserves what a program returns in that
model, and `driver::lemma_compile_correct` chains them: in the model, the emitted function
returns the value of the source's return expression.

`app/main.rs` is the command-line driver: argument parsing, `gcc`, `uname` and files.
