# rusty_abacus

The verified core of RustyAbacus, a scientific calculator and graphing tool.

- `src/calculator/` — expressions: tokens (`token.rs`), the tokenizer (`lexer.rs`),
  shunting-yard reordering into postfix form (`parser.rs`), the stack decisions of
  postfix evaluation (`rpn.rs`), errors and their messages (`error.rs`), and the
  entry points `parse_expression`, `contains_variable`, `is_blank` (`expression.rs`).
  Decimal literals are kept as text in a table; their `f64` values are computed outside.
- `src/controls.rs` — what key presses do in calculator and graph mode, the bounded
  history and the list of additional curves.
- `src/plot.rs` — how a sampled curve splits into connected pieces.
- `src/raster.rs` — Bresenham's line rasterization, clipped to an image.
- `src/export.rs` — the exported graph picture: background, lines and axes drawn into
  an `image` buffer, handed out as RGB bytes for saving.
- `app/` — the iced application: floating-point evaluation, sampling, viewport,
  on-screen drawing, clipboard, saving the PNG file and the file dialog.

Every function in `src/` carries a contract that Verus proves, except the six
`external_body` wrappers that call std's `String::push` and the `image` crate's
`ImageBuffer` (`from_fn`, `width`, `height`, `put_pixel`, `into_raw`): their contracts
are trusted, not proved. The laws of the tokenizer, the shunting-yard algorithm, variable
lookup and the line rasterizer are stated as proof functions next to them.
