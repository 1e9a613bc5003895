# c_compiler

A compiler for a subset of C (`int` functions, local `int` variables,
expressions with the usual operators, `if`, loops, `switch`, labels and
`goto`) to x86-64 assembly, written in Verus.

The library in `src/` is verified:

- `lexer`: bytes to tokens, with the tokens and the lexical errors stated
  exactly.
- `parser`: tokens to a syntax tree; every tree it returns without error
  is derived from the tokens by the grammar in `parser/grammar.rs`, every
  expression in it spans its tokens, and success without error is promised
  on every program whose statements, declarations and expressions the
  parser takes in full (`stmt_end`, `chain_end`, `program_parses` in
  `parser/parser.rs`). `parser/lowering.rs` turns a
  tree into the three-address IR: the shape of each construct's code, with
  the temporaries it records, the casts and the constants' kinds.
- `analysis`: the semantic passes (compound assignments, name resolution,
  loop labels, `goto` targets, type checking, switch cases). Each pass
  states exactly how the tree it leaves relates to the one it was given
  (what it renames, labels or fills in, and that nothing else changes); type
  checking, the loop labels, the `goto` check, the switch cases and the
  nested-definition check state each error they report, with its span and
  message; `validate_program` states that a program the passes accept
  without error can be lowered.
- `ir`: the IR, its text, and its lowering to assembly instructions.
- `codegen`: stack slots for temporaries (each offset stated), the frame,
  the instruction fix-ups, and the assembly text.

`app/main.rs` is the command-line driver: it reads the file, runs the
preprocessor and assembler, and prints diagnostics.
