# lof

The LoF proof language as a library whose behaviour is stated in Verus
contracts and proved: parsing, elaboration into the calculus of inductive
constructions, its type checker (with unification-based inference and
tactic proofs), its reducer, and program checking and execution. The
superposition saturation loop and the first-order type checkers are not
part of it: the library holds the prover's data, strategies and answer
bookkeeping, and SLD resolution over Horn clauses.

## Layout

- `src/cic/` — the calculus of inductive constructions: terms and their
  mathematical model (`term`, `model`), De Bruijn indexing and substitution
  (`utils`, `bounds`, with the open/close laws in `laws`), elaboration of
  surface expressions and statements (`elaboration`, `statements`),
  second-order unification (`unification`), eliminators of inductive types
  (`eliminator`), the typing environment with its scoped context and
  definitions (`environment`, over the association lists of `assoc`),
  ι-reduction and inductive declarations (`evaluation`), βδιζ-reduction and
  normalization (`reduction`), the type checker of terms, patterns and
  `match` with constraint collection (`type_check`), tactics
  (`tactics`), statement checking and program execution (`kernel`),
  transport of terms
  and definitions across a type equivalence (`transport`), and rendering
  (`render`).
- `src/commons/` — what the type theories share: substitutions and
  first-order unification, tactic elaboration, equivalence configurations.
- `src/fol/` — first-order formulas and their clausification.
- `src/sup/` — the superposition-style prover's data: clauses, unification
  with answer substitutions, given-clause and literal-selection strategies,
  answer-literal bookkeeping, SLD resolution over Horn clauses with its
  soundness proof (`soundness`), and the problem-file reader of the
  benchmark (`sld_bench`).
- `src/parser/` — the surface syntax: the AST and its model (`api`,
  `model`), the lexical layer (`lexer`), the expression and statement
  grammars as parsing expression grammars over characters (`grammar`,
  `stm_grammar`), the parsers proved to compute them (`expressions`,
  `statements`, `stm_parser`), and user notations (`notation`).
- `src/config.rs`, `src/cli.rs`, `src/error.rs`, `src/text.rs`,
  `src/runtime/` — configuration values, command-line flags, the error
  type and its messages, text helpers, and the program schedule.
- `tests/` — tests of the library on concrete values.
- `app/` — file and console input/output, the YAML configuration loader,
  and the command line (`parse`, `elaborate`, `check`, `run`,
  `interactive`).

## Laws

Besides the contracts of each function, the library proves laws that relate
several operations, among them: opening a term closes back to it, a local
assumption or definition leaves the environment as it found it, a
unifier unifies, merging substitutions composes them, transport leaves a
term without trace of the source type unchanged, every answer found by
SLD resolution is an instance of a consequence of the program, a statement
that type checks has been evaluated, and a program that type checks runs
without an error. Type checking leaves the environment as it found it.
