# vastc

The front end of the vast compiler: source handling, a lexer, the beginnings
of a parser and AST, and terminal diagnostics. The library in `src/` is
written in Verus and verified; `app/` is the command line driver.

## Layout

- `src/source.rs` — `Source` (text with a character-to-byte table), spans,
  positions (with their line and column) and segments, and `Cursor`, the character cursor the lexer uses.
- `src/lines.rs` — the split of a source into lines and the lines a span touches.
- `src/parse.rs` — `CharIterator` and `CharTree`, the trie of symbol spellings.
- `src/spec.rs` — escape sequences.
- `src/parser/` — tokens (`token.rs`), the lexer (`lexer.rs`, with the lexing
  specification `lex_next`/`lex_all` that the lexer is proved to follow) and the
  token cursor and parser state (`parser.rs`).
- `src/ast.rs`, `src/framework/` — the AST arena, ids, arenas and registries.
- `src/ansi.rs` — ANSI colors and attributes and their escape sequences.
- `src/diagnostics.rs` — what a diagnostic shows: the source window around its
  location, each character with its style.
- `src/chars.rs` — the Unicode character classes: whitespace is checked
  against the `White_Space` code points; the alphabetic and alphanumeric
  classes come from the standard library through small trusted wrappers.
- `app/` — reading the source file, logging, color dimming (floating point) and
  writing diagnostics to the terminal.

Laws that span several functions are public proof functions named `law_*`.
