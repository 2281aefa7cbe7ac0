# css_calc

The math functions of CSS values: `calc()`, `min()`, `max()`, `clamp()`, `mod()` and `rem()`. Tokens
are read into a tree; a tree is written out as tokens, measured and compared. The `+` and `-` of a
sum come out requiring whitespace on both sides; everything else comes out as it went in.

- `src/calc.rs`: the nodes of the tree and what can be done with them.
- `src/parser.rs`, `src/cursor.rs`, `src/token.rs`, `src/block.rs`, `src/names.rs`: what they are read
  from, and the functions that are kept token by token.
- `src/arena.rs`: the lists inside a tree, which live in a `bumpalo` arena. What is believed of that
  crate is stated there.
- `src/tree.rs`, `src/grammar.rs`, `src/spacing.rs`: the trees as mathematical values, what is read
  from which tokens, and what becomes of the whitespace around operators.
- `src/laws.rs` and `src/laws/`: what holds for all inputs: that what is written is read back, that
  reading loses nothing, that the token at which reading stops is to blame, and so on.
- `app/`: the same tree in a form that can be serialized.
