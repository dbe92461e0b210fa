# xl

Compilers for the small experimental language XL, written in Verus: the
library's behaviour is stated in `requires`/`ensures` contracts and proved.

- `src/compiler` — a front end that lexes and parses XL functions, checks
  their types, lowers them to a three-address IR and prints that IR as Rust
  source.
- `src/xl_compiler` — a second front end that keeps the token stream as the
  program.
- `src/xlc` — the `xlc` compiler: lexer and precedence-climbing parser,
  semantic checks, pattern matching and rewriting of expressions, a symbol
  table, type inference with schemes and substitutions, unification (stated
  for the runs that come to an end), an SSA form with constant folding and
  dead-value removal, parser primitives, and the plan of the LLVM code to
  build.
- `src/text.rs` — characters, numerals and text building shared by the
  lexers and printers.
- `app/` — the command-line drivers (`compile`, `xl`, `xlc`): file and process
  I/O, LLVM through inkwell, and the pieces Verus does not take (visitor
  traits, generic parser combinators).
- `tests/` — tests of the library on concrete inputs.
