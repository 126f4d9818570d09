//! Shebang lines (`#!...`)
use vstd::prelude::*;
use crate::ast_str::AstStr;
use crate::lex::at;
use crate::parser::{Parse, ParseError, Parser};
use crate::text::{at2, at3, find_byte, find_byte_in};
use crate::ws_parse::is_input_str;

verus! {

/// Shebang
pub struct Shebang(pub AstStr);

/// Error from parsing a shebang
#[derive(Clone, Copy, Debug, PartialEq, Eq, Structural)]
pub enum ShebangError {
    /// Expected a `#!`
    Shebang,
}

impl ParseError for ShebangError {
    open spec fn spec_is_fatal(&self) -> bool {
        false
    }

    fn is_fatal(&self) -> (r: bool) {
        false
    }

    open spec fn spec_pos(&self) -> Option<usize> {
        None
    }

    fn pos(&self) -> (r: Option<usize>) {
        None
    }
}

/// The result of lexing a shebang at `p`: a line starting with `#!` (but not
/// `#![`), up to and including its newline, or to the end of the input.
pub open spec fn spec_shebang(s: Seq<u8>, p: int) -> Result<int, ShebangError> {
    if !at(s, p, seq![0x23u8, 0x21]) || at(s, p, seq![0x23u8, 0x21, 0x5b]) {
        Err(ShebangError::Shebang)
    } else {
        match find_byte(s, p, 0x0a) {
            Some(nl) => Ok(nl + 1),
            None => Ok(s.len() as int),
        }
    }
}

impl Shebang {
    /// Lexes a shebang line starting at `from`, returning the position after
    /// it.
    pub fn parse(s: &[u8], from: usize) -> (r: Result<usize, ShebangError>)
        requires
            from <= s@.len(),
        ensures
            match r {
                Ok(e) => spec_shebang(s@, from as int) == Ok::<int, ShebangError>(e as int),
                Err(e) => spec_shebang(s@, from as int) == Err::<int, ShebangError>(e),
            },
            r matches Ok(e) ==> from + 2 <= e <= s@.len(),
    {
        let n = s.len();
        if !at2(s, from, 0x23, 0x21) || at3(s, from, 0x23, 0x21, 0x5b) {
            return Err(ShebangError::Shebang);
        }
        match find_byte_in(s, from, 0x0a) {
            Some(nl) => {
                proof {
                    assert(s@[from as int] == 0x23);
                }
                Ok(nl + 1)
            },
            None => Ok(n),
        }
    }
}

impl Parse for Shebang {
    type Error = ShebangError;

    /// The shebang line at the position, as [`spec_shebang`] finds it; on
    /// failure the parser stays.
    open spec fn parses(before: Parser<'_>, r: Result<Shebang, ShebangError>, after: Parser<'_>) -> bool {
        match r {
            Ok(sb) => spec_shebang(before.spec_input(), before.pos() as int) == Ok::<int, ShebangError>(after.pos() as int)
                && is_input_str(sb.0, before.spec_input(), before.pos() as int, after.pos() as int),
            Err(e) => spec_shebang(before.spec_input(), before.pos() as int) == Err::<int, ShebangError>(e)
                && after.pos() == before.pos(),
        }
    }

    fn parse_from(parser: &mut Parser<'_>) -> (r: Result<Self, Self::Error>) {
        let start = parser.cur_pos();
        match Shebang::parse(parser.input_bytes(), start) {
            Ok(end) => Ok(Shebang(parser.take_str(end))),
            Err(err) => Err(err),
        }
    }
}

} // verus!
