//! Punctuation tokens and the opening brace lookahead.
use vstd::prelude::*;
use crate::ast_str::AstStr;
use crate::parser::{Parse, ParseError, Parser, ParserError, ParserTag, AstRange};
use crate::punct::{Punct, PunctSkips, punct_matches, punct_str, punctuation, punct_fail_reach, spec_punct_fail_reach};
use crate::text::{skip_ws, skip_ws_from};
use crate::whitespace::Whitespace;
use crate::ws_parse::{WhitespaceError, is_input_str, spec_ws_scan};

verus! {

/// A punctuation token, with the whitespace before it
pub struct Punctuation {
    /// The whitespace before the token
    pub ws: Whitespace,
    /// The token's text
    pub str: AstStr,
    /// Which punctuation it is
    pub kind: Punct,
}

/// Error from parsing punctuation
pub enum PunctuationError {
    /// The whitespace before it failed fatally
    Whitespace(ParserError<WhitespaceError>),
    /// Expected punctuation
    NotFound,
}

impl ParseError for PunctuationError {
    open spec fn spec_is_fatal(&self) -> bool {
        match self {
            PunctuationError::Whitespace(e) => e.spec_is_fatal(),
            PunctuationError::NotFound => false,
        }
    }

    fn is_fatal(&self) -> (r: bool) {
        match self {
            PunctuationError::Whitespace(e) => e.is_fatal(),
            PunctuationError::NotFound => false,
        }
    }

    open spec fn spec_pos(&self) -> Option<usize> {
        match self {
            PunctuationError::Whitespace(e) => e.spec_pos(),
            PunctuationError::NotFound => None,
        }
    }

    fn pos(&self) -> (r: Option<usize>) {
        match self {
            PunctuationError::Whitespace(e) => e.pos(),
            PunctuationError::NotFound => None,
        }
    }
}

/// The punctuation skips in effect for a parser.
pub open spec fn parser_skips(parser: Parser<'_>) -> PunctSkips {
    PunctSkips {
        plus: parser.has_tag_spec(ParserTag::SkipTokenPlus),
        star: parser.has_tag_spec(ParserTag::SkipTokenStar),
        dollar: parser.has_tag_spec(ParserTag::SkipTokenDollar),
        question: parser.has_tag_spec(ParserTag::SkipTokenQuestion),
        delimiters: parser.has_tag_spec(ParserTag::SkipDelimiters),
    }
}

/// Where the whitespace before a token ends: where parsing started under
/// [`ParserTag::SkipWhitespace`], else after the scanned whitespace, or
/// `None` when scanning it failed.
pub open spec fn ws_end(parser: Parser<'_>) -> Option<int> {
    if parser.has_tag_spec(ParserTag::SkipWhitespace) {
        Some(parser.pos() as int)
    } else {
        match spec_ws_scan(parser.spec_input(), parser.pos() as int) {
            Ok((_, end)) => Some(end),
            Err(_) => None,
        }
    }
}

impl Parse for Punctuation {
    type Error = PunctuationError;

    /// Whitespace, then the longest punctuation allowed by the parser's
    /// tags; a failure says where lexing stopped.
    open spec fn parses(before: Parser<'_>, r: Result<Punctuation, PunctuationError>, after: Parser<'_>) -> bool {
        let s = before.spec_input();
        let skips = parser_skips(before);
        match r {
            Ok(p) => {
                let start = after.pos() - punct_str(p.kind).len();
                &&& ws_end(before) == Some(start)
                &&& punct_matches(s, start, p.kind, skips)
                &&& forall|q: Punct| punct_matches(s, start, q, skips) ==> punct_str(q).len() <= punct_str(p.kind).len()
                &&& is_input_str(p.str, s, start, after.pos() as int)
            },
            Err(PunctuationError::NotFound) => ws_end(before) matches Some(w)
                && ((forall|q: Punct| !punct_matches(s, w, q, skips))
                && after.pos() == spec_punct_fail_reach(s, w, skips)),
            Err(PunctuationError::Whitespace(e)) => ws_end(before) is None && !e.spec_is_fatal(),
        }
    }

    /// Parses whitespace, then the longest punctuation allowed by the
    /// parser's tags.
    fn parse_from(parser: &mut Parser<'_>) -> (r: Result<Self, Self::Error>) {
        let skips = PunctSkips {
            plus: parser.has_tag(ParserTag::SkipTokenPlus),
            star: parser.has_tag(ParserTag::SkipTokenStar),
            dollar: parser.has_tag(ParserTag::SkipTokenDollar),
            question: parser.has_tag(ParserTag::SkipTokenQuestion),
            delimiters: parser.has_tag(ParserTag::SkipDelimiters),
        };
        let ghost old_parser = *parser;
        let ws_start = parser.cur_pos();
        let ws = match Whitespace::parse_from(parser) {
            Ok(ws) => ws,
            Err(source) => {
                let range = AstRange { start: ws_start, end: parser.cur_pos() };
                return Err(PunctuationError::Whitespace(ParserError { source: Box::new(source), range }));
            },
        };
        let start = parser.cur_pos();
        let total = parser.input_bytes().len();
        match punctuation(parser.input_bytes(), start, skips) {
            Some((kind, len)) => {
                assert(start + len <= total);
                let str = parser.take_str(start + len);
                Ok(Punctuation { ws, str, kind })
            },
            None => {
                let reach = punct_fail_reach(parser.input_bytes(), start, skips);
                parser.advance_to(reach);
                Err(PunctuationError::NotFound)
            },
        }
    }
}

/// Lookahead for an opening brace, after whitespace
pub struct ParseBracesOpen;

/// Error from looking for an opening brace
pub struct BracesOpenError;

impl ParseError for BracesOpenError {
    open spec fn spec_is_fatal(&self) -> bool {
        false
    }

    fn is_fatal(&self) -> (r: bool) {
        false
    }

    open spec fn spec_pos(&self) -> Option<usize> {
        None
    }

    fn pos(&self) -> (r: Option<usize>) {
        None
    }
}

impl Parse for ParseBracesOpen {
    type Error = BracesOpenError;

    /// Under [`ParserTag::SkipDelimiters`] it fails in place; otherwise it
    /// succeeds exactly when an opening brace follows the whitespace.
    open spec fn parses(before: Parser<'_>, r: Result<ParseBracesOpen, BracesOpenError>, after: Parser<'_>) -> bool {
        &&& before.has_tag_spec(ParserTag::SkipDelimiters) ==> r is Err && after.pos() == before.pos()
        &&& !before.has_tag_spec(ParserTag::SkipDelimiters) ==> {
            let s = before.spec_input();
            let q = skip_ws(s, before.pos() as int);
            &&& (r is Ok <==> (q < s.len() && s[q] == 0x7b))
            &&& r is Ok ==> after.pos() == q + 1
            &&& r is Err ==> after.pos() == q
        }
    }

    fn parse_from(parser: &mut Parser<'_>) -> (r: Result<Self, Self::Error>) {
        if parser.has_tag(ParserTag::SkipDelimiters) {
            return Err(BracesOpenError);
        }
        let start = parser.cur_pos();
        let q = skip_ws_from(parser.input_bytes(), start);
        let bytes = parser.input_bytes();
        if q < bytes.len() && bytes[q] == 0x7b {
            parser.advance_to(q + 1);
            Ok(ParseBracesOpen)
        } else {
            parser.advance_to(q);
            Err(BracesOpenError)
        }
    }
}

} // verus!
