# rustidy

The verified core of a Rust source code formatter, written in Verus: every
function of the library states what it does in `requires` / `ensures` and
Verus proves it. The library holds the machinery a formatter is built from;
it holds no Rust grammar (items, expressions, types, patterns), so by itself
it does not parse or format a whole Rust file.

- `src/` is the verified library: lexing (comments, whitespace, punctuation,
  shebang lines), the parser with its tags, lookahead and recursive
  (prefix / base / suffix / infix) parsing with its rules for splitting the
  input, whitespace formatting, use tree sorting, flattening and merging
  (over trees without whitespace or comments), `#[rustidy::config(...)]`
  attributes, the `Format` trait (whitespace, options, boxes, vectors,
  values with attributes) with the skip setting, format output summaries and
  printing, and the decisions a `rustidy` command makes (which configuration
  file applies, which file is formatted next, what `--check` answers).
- `tests/` exercise the library on concrete inputs.
- `app/` is `cargo rustidy`: it asks cargo for the workspace's packages,
  selects those to format with the library, and hands their targets to a
  `rustidy` command, which is not part of this crate.

Among the proved properties: formatting whitespace a second time changes
nothing; printing parsed whitespace gives the input back; sorting and
flattening use trees are idempotent; punctuation is lexed by longest match;
a failed lookahead leaves the parser where it was; a recursive parse takes
each prefix, base, suffix and infix where its rule says; tags pushed for a
scope are in effect there and gone once it ends; configuration attributes
hold for their value only; with formatting skipped, a value is left exactly
as it was.
