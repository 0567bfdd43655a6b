# alphaword_blocks

A library for designing sets of letter cubes (blocks) that can spell every
word of a word list, written in Verus: the logic is proved against its
`requires` / `ensures` contracts.

- `src/` — the verified library: the glyph catalogue and its packages,
  the tokenizer that compiles tokens to letters, rewrite bridges, word-list
  cleanup, letter statistics and their Pareto fronts, Hall certificates and
  bipartite matching, cube assignment steps and deficits, reports, and the
  interactive round logic as a state machine.
- `tests/` — tests of the library on concrete values.
- `app/` — the program around it: command line, configuration files, word
  file reading, the floating-point annealer and the interactive loop.
