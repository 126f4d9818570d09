//! The rustidy formatter's core: parsing source text into whitespace,
//! comments and tokens, formatting whitespace and use trees, and printing
//! the result back, each step with its behaviour stated and proved.
//!
//! - [`text`], [`lex`], [`punct`], [`shebang`]: lexing bytes.
//! - [`parser`], [`ws_parse`], [`token`], [`recursive`]: the parser and
//!   parsable types.
//! - [`ast_str`], [`whitespace`], [`path`], [`attr`], [`use_tree`],
//!   [`with_attrs`]: the syntax the formatter works on.
//! - [`context`], [`format_output`], [`output`], [`formattable`], [`format`],
//!   [`layout`]: formatting.
//! - [`print`]: printing.
//! - [`mod_file`], [`run`], [`packages`]: choices of the command line tools.

pub mod ast_str;
pub mod attr;
pub mod context;
pub mod format;
pub mod format_output;
pub mod formattable;
pub mod layout;
pub mod lex;
pub mod mod_file;
pub mod output;
pub mod packages;
pub mod parser;
pub mod path;
pub mod print;
pub mod punct;
pub mod run;
pub mod recursive;
pub mod shebang;
pub mod text;
pub mod token;
pub mod use_tree;
pub mod whitespace;
pub mod with_attrs;
pub mod ws_parse;
