# abyss_lang

An interpreter for AbySS, a small scripting language with runic names
(`forge` for variables, `oracle` for matching, `orbit` for loops, `engrave`
for functions, `unveil` to print), written in Verus and verified.

Layout:

- `src/parser/`: the lexer, the parser and parser diagnostics (rendered
  with ariadne). `parser/syntax.rs` states the grammar as relations between
  tokens and syntax trees, which the parser's results are proved to meet;
  `parser/longest.rs` proves that a source has at most one lexing into
  longest tokens, and none where the lexer stops.
- `src/analysis.rs`, `src/semantic.rs`: the symbol table and the check that
  match-style oracles are exhaustive.
- `src/env.rs`, `src/eval/`: runtime values, the environment, and the
  evaluator. `eval/calls.rs` states what a call of an engraved function
  computes, `eval/oracles.rs` what an oracle computes and evaluates
  oracles, `eval/stacks.rs` how blocks and orbits whose statements assign
  change the scopes.
- `src/stdlib/`: the built-in functions and the global environment.
- `src/playground.rs`, `src/report.rs`: running whole scripts, capturing
  output and reporting errors beside their source line. A run is stated
  as a trace of statements, each evaluated as `evaluate`'s contract
  (`eval::statements::evaluates`) allows, stopping at the first error.
- `app/`: the `abyss` command and the browser playground bindings. Aether
  (floating point) arithmetic is done there, by the host, through the
  `AetherOps` trait; input and output go through `IoBridge`.
