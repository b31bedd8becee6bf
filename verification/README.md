# Oil

Oil is a small dynamically typed language in the style of Crafting Interpreters: a scanner, a
recursive-descent parser, an expression evaluator with nested variable scopes, and a block
allocator for a future heap. The library is written in Verus and its behaviour is stated in
contracts and proved.

Layout:

- `src/object.rs`: values, equality, truthiness, and IEEE-754 doubles held as bit patterns.
- `src/token.rs`, `src/scanner.rs`: tokens and the scanner, against a lexical specification.
- `src/spacing.rs`: the proof that blanks between tokens change nothing but lines.
- `src/expression.rs`, `src/statement.rs`: syntax trees and their printed form.
- `src/grammar.rs`, `src/parser.rs`: the grammar as spec functions, and the parser proved
  to follow it.
- `src/environment.rs`, `src/interpreter.rs`: scopes and expression evaluation; arithmetic on
  doubles is asked of the caller, so evaluation is proved for every result it is given.
- `src/logger.rs`: the text of error reports.
- `src/block.rs`, `src/block_meta.rs`: memory blocks and their line marks.
- `app/main.rs`: the command-line program: files, standard input, printing, and the
  floating-point work (reading number literals, arithmetic, showing numbers).
