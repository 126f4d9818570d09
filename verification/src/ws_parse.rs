//! Parsing whitespace and comments.
use vstd::prelude::*;
use crate::ast_str::AstStr;
use crate::lex::{
    BlockCommentError, LineCommentError, WsPiece, CommentStep, CommentStepExec, spec_ws_rest,
    spec_comment_step, spec_block_comment, spec_block_comment_reach, spec_line_comment,
    block_comment, line_comment, comment_step, lemma_skip_ws_bounds, lemma_comment_step_bounds,
};
use crate::parser::{spec_max_pos, max_pos, Parse, ParseError, Parser, ParserError, ParserTag, AstRange, NeverError};
use crate::text::{skip_ws, skip_ws_from};
use crate::whitespace::{BlockComment, Comment, LineComment, PureWhitespace, Whitespace, WhitespaceInner, rest_text, lemma_rest_text_concat};

verus! {

impl ParseError for BlockCommentError {
    open spec fn spec_is_fatal(&self) -> bool {
        *self == BlockCommentError::MissingCommentEnd
    }

    fn is_fatal(&self) -> (r: bool) {
        match self {
            BlockCommentError::NoComment => false,
            BlockCommentError::MissingCommentEnd => true,
        }
    }

    open spec fn spec_pos(&self) -> Option<usize> {
        None
    }

    fn pos(&self) -> (r: Option<usize>) {
        None
    }
}

impl ParseError for LineCommentError {
    open spec fn spec_is_fatal(&self) -> bool {
        false
    }

    fn is_fatal(&self) -> (r: bool) {
        false
    }

    open spec fn spec_pos(&self) -> Option<usize> {
        None
    }

    fn pos(&self) -> (r: Option<usize>) {
        None
    }
}

/// Whether `s` is the string of input bytes `lo .. hi`.
pub open spec fn is_input_str(s: AstStr, input: Seq<u8>, lo: int, hi: int) -> bool {
    &&& s.text() == input.subrange(lo, hi)
    &&& s.input matches Some(b) && b@ == s.text()
}

impl Parse for PureWhitespace {
    type Error = NeverError;

    /// The whitespace characters at the position are taken.
    open spec fn parses(before: Parser<'_>, r: Result<PureWhitespace, NeverError>, after: Parser<'_>) -> bool {
        &&& r matches Ok(w) && is_input_str(w.0, before.spec_input(), before.pos() as int, after.pos() as int)
        &&& after.pos() == skip_ws(before.spec_input(), before.pos() as int)
    }

    fn parse_from(parser: &mut Parser<'_>) -> (r: Result<Self, Self::Error>) {
        let start = parser.cur_pos();
        let end = skip_ws_from(parser.input_bytes(), start);
        Ok(PureWhitespace(parser.take_str(end)))
    }
}

impl Parse for BlockComment {
    type Error = BlockCommentError;

    /// The block comment at the position, as the lexer finds it; the parser
    /// ends where the lexer stopped.
    open spec fn parses(before: Parser<'_>, r: Result<BlockComment, BlockCommentError>, after: Parser<'_>) -> bool {
        &&& after.pos() == spec_block_comment_reach(before.spec_input(), before.pos() as int)
        &&& match r {
            Ok(c) => spec_block_comment(before.spec_input(), before.pos() as int) == Ok::<int, BlockCommentError>(after.pos() as int)
                && is_input_str(c.0, before.spec_input(), before.pos() as int, after.pos() as int),
            Err(e) => spec_block_comment(before.spec_input(), before.pos() as int) == Err::<int, BlockCommentError>(e),
        }
    }

    fn parse_from(parser: &mut Parser<'_>) -> (r: Result<Self, Self::Error>) {
        let start = parser.cur_pos();
        match block_comment(parser.input_bytes(), start) {
            Ok(end) => Ok(BlockComment(parser.take_str(end))),
            Err((err, reach)) => {
                parser.advance_to(reach);
                Err(err)
            },
        }
    }
}

impl Parse for LineComment {
    type Error = LineCommentError;

    /// The line comment at the position, as the lexer finds it; on failure
    /// the parser stays.
    open spec fn parses(before: Parser<'_>, r: Result<LineComment, LineCommentError>, after: Parser<'_>) -> bool {
        match r {
            Ok(c) => spec_line_comment(before.spec_input(), before.pos() as int) == Ok::<int, LineCommentError>(after.pos() as int)
                && is_input_str(c.0, before.spec_input(), before.pos() as int, after.pos() as int),
            Err(e) => spec_line_comment(before.spec_input(), before.pos() as int) == Err::<int, LineCommentError>(e)
                && after.pos() == before.pos(),
        }
    }

    fn parse_from(parser: &mut Parser<'_>) -> (r: Result<Self, Self::Error>) {
        let start = parser.cur_pos();
        match line_comment(parser.input_bytes(), start) {
            Ok(end) => Ok(LineComment(parser.take_str(end))),
            Err(err) => Err(err),
        }
    }
}

/// Error from parsing a comment
pub enum CommentError {
    /// The block comment failed fatally
    Block(ParserError<BlockCommentError>),
    /// The line comment failed fatally
    Line(ParserError<LineCommentError>),
    /// Expected a block or line comment
    NoneMatched { block: ParserError<BlockCommentError>, line: ParserError<LineCommentError> },
}

impl ParseError for CommentError {
    open spec fn spec_is_fatal(&self) -> bool {
        match self {
            CommentError::Block(e) => e.spec_is_fatal(),
            CommentError::Line(e) => e.spec_is_fatal(),
            CommentError::NoneMatched { block, line } => block.spec_is_fatal() || line.spec_is_fatal(),
        }
    }

    fn is_fatal(&self) -> (r: bool) {
        match self {
            CommentError::Block(e) => e.is_fatal(),
            CommentError::Line(e) => e.is_fatal(),
            CommentError::NoneMatched { block, line } => block.is_fatal() || line.is_fatal(),
        }
    }

    open spec fn spec_pos(&self) -> Option<usize> {
        match self {
            CommentError::Block(e) => e.spec_pos(),
            CommentError::Line(e) => e.spec_pos(),
            CommentError::NoneMatched { block, line } => spec_max_pos(block.spec_pos(), line.spec_pos()),
        }
    }

    fn pos(&self) -> (r: Option<usize>) {
        match self {
            CommentError::Block(e) => e.pos(),
            CommentError::Line(e) => e.pos(),
            CommentError::NoneMatched { block, line } => max_pos(block.pos(), line.pos()),
        }
    }
}

impl Parse for Comment {
    type Error = CommentError;

    /// A block comment, else a line comment, as the lexer's comment step
    /// finds them.
    open spec fn parses(before: Parser<'_>, r: Result<Comment, CommentError>, after: Parser<'_>) -> bool {
        let s = before.spec_input();
        let p = before.pos() as int;
        match spec_comment_step(s, p) {
            CommentStep::Block(e) => r matches Ok(Comment::Block(b))
                && (after.pos() == e && is_input_str(b.0, s, p, e)),
            CommentStep::Line(e) => r matches Ok(Comment::Line(l))
                && (after.pos() == e && is_input_str(l.0, s, p, e)),
            CommentStep::NoComment => r matches Err(CommentError::NoneMatched { block, line })
                && (after.pos() == p && !block.spec_is_fatal() && !line.spec_is_fatal()),
            CommentStep::Fatal(x) => r matches Err(CommentError::Block(e))
                && (after.pos() == x && e.spec_is_fatal()),
        }
    }

    /// Parses a block comment, else a line comment.
    fn parse_from(parser: &mut Parser<'_>) -> (r: Result<Self, Self::Error>) {
        let start = parser.cur_pos();
        let block_err = match BlockComment::parse_from(parser) {
            Ok(block) => return Ok(Comment::Block(block)),
            Err(source) => {
                let err = ParserError { source: Box::new(source), range: AstRange { start, end: parser.cur_pos() } };
                if err.is_fatal() {
                    return Err(CommentError::Block(err));
                }
                parser.set_pos(start);
                err
            },
        };
        let line_err = match LineComment::parse_from(parser) {
            Ok(line) => return Ok(Comment::Line(line)),
            Err(source) => ParserError { source: Box::new(source), range: AstRange { start, end: parser.cur_pos() } },
        };
        Err(CommentError::NoneMatched { block: block_err, line: line_err })
    }
}

/// Error from parsing whitespace contents.
///
/// It is never fatal itself, though the comment error it holds is: a
/// caller may backtrack over whitespace that fails.
pub enum WhitespaceInnerError {
    /// A comment failed fatally
    Comment(ParserError<CommentError>),
}

impl ParseError for WhitespaceInnerError {
    open spec fn spec_is_fatal(&self) -> bool {
        false
    }

    fn is_fatal(&self) -> (r: bool) {
        false
    }

    open spec fn spec_pos(&self) -> Option<usize> {
        None
    }

    fn pos(&self) -> (r: Option<usize>) {
        None
    }
}

/// Whether the comments of a whitespace are the scanned pieces of `input`.
pub open spec fn rest_matches(rest: Seq<(Comment, PureWhitespace)>, input: Seq<u8>, pieces: Seq<WsPiece>) -> bool {
    &&& rest.len() == pieces.len()
    &&& forall|i: int| 0 <= i < rest.len() ==> {
        let (c, p) = #[trigger] rest[i];
        &&& (c is Line) == pieces[i].is_line
        &&& is_input_str(c.str(), input, pieces[i].start, pieces[i].comment_end)
        &&& is_input_str(p.0, input, pieces[i].comment_end, pieces[i].pure_end)
    }
}

/// The result of scanning whitespace at `p`: its leading pure whitespace
/// ends at `skip_ws`, then come the comments.
pub open spec fn spec_ws_scan(s: Seq<u8>, p: int) -> Result<(Seq<WsPiece>, int), int> {
    spec_ws_rest(s, skip_ws(s, p))
}

/// Whether `w` is the whitespace scanned from `lo` to `hi` in `input`.
pub open spec fn ws_matches(w: WhitespaceInner, input: Seq<u8>, lo: int, hi: int) -> bool {
    &&& is_input_str(w.first.0, input, lo, skip_ws(input, lo))
    &&& spec_ws_scan(input, lo) matches Ok((pieces, end)) && end == hi && rest_matches(w.rest@, input, pieces)
}

/// Whether pieces follow each other from `p` to `end`, each comment before
/// its pure whitespace.
pub open spec fn pieces_chain(pieces: Seq<WsPiece>, p: int, end: int) -> bool
    decreases pieces.len(),
{
    if pieces.len() == 0 {
        p == end
    } else {
        &&& pieces[0].start == p
        &&& p <= pieces[0].comment_end <= pieces[0].pure_end
        &&& pieces_chain(pieces.drop_first(), pieces[0].pure_end, end)
    }
}

/// The pieces scanned after position `p` follow each other up to where
/// scanning ended.
proof fn lemma_ws_rest_chain(s: Seq<u8>, p: int)
    requires
        0 <= p <= s.len(),
    ensures
        spec_ws_rest(s, p) matches Ok((pieces, end)) ==> pieces_chain(pieces, p, end) && end <= s.len(),
    decreases s.len() - p,
{
    lemma_comment_step_bounds(s, p);
    match spec_comment_step(s, p) {
        CommentStep::Block(e) => {
            lemma_skip_ws_bounds(s, e);
            let q = skip_ws(s, e);
            lemma_ws_rest_chain(s, q);
            if let Ok((pieces, end)) = spec_ws_rest(s, q) {
                let all = seq![WsPiece { is_line: false, start: p, comment_end: e, pure_end: q }] + pieces;
                assert(all.drop_first() =~= pieces);
            }
        },
        CommentStep::Line(e) => {
            lemma_skip_ws_bounds(s, e);
            let q = skip_ws(s, e);
            lemma_ws_rest_chain(s, q);
            if let Ok((pieces, end)) = spec_ws_rest(s, q) {
                let all = seq![WsPiece { is_line: true, start: p, comment_end: e, pure_end: q }] + pieces;
                assert(all.drop_first() =~= pieces);
            }
        },
        _ => {},
    }
}

/// The text of comments matched to chained pieces is the input they span.
proof fn lemma_rest_text_chain(rest: Seq<(Comment, PureWhitespace)>, input: Seq<u8>, pieces: Seq<WsPiece>, p: int, end: int)
    requires
        rest_matches(rest, input, pieces),
        pieces_chain(pieces, p, end),
        0 <= p,
        end <= input.len(),
    ensures
        rest_text(rest) == input.subrange(p, end),
    decreases rest.len(),
{
    if rest.len() == 0 {
        assert(input.subrange(p, end) =~= Seq::<u8>::empty());
    } else {
        let head = rest.take(1);
        let tail = rest.drop_first();
        assert(rest =~= head + tail);
        lemma_rest_text_concat(head, tail);
        assert(head.drop_last() =~= Seq::<(Comment, PureWhitespace)>::empty());
        let q = pieces[0].pure_end;
        assert(rest_matches(tail, input, pieces.drop_first())) by {
            assert forall|i: int| 0 <= i < tail.len() implies {
                let (c, w) = #[trigger] tail[i];
                &&& (c is Line) == pieces.drop_first()[i].is_line
                &&& is_input_str(c.str(), input, pieces.drop_first()[i].start, pieces.drop_first()[i].comment_end)
                &&& is_input_str(w.0, input, pieces.drop_first()[i].comment_end, pieces.drop_first()[i].pure_end)
            } by {
                assert(tail[i] == rest[i + 1]);
            }
        }
        lemma_chain_end(pieces.drop_first(), q, end);
        lemma_rest_text_chain(tail, input, pieces.drop_first(), q, end);
        let (c, w) = rest[0];
        assert(head.last() == rest[0]);
        assert(rest_text(head) == rest_text(head.drop_last()) + c.str().text() + w.0.text());
        assert(rest_text(Seq::<(Comment, PureWhitespace)>::empty()) == Seq::<u8>::empty());
        assert(is_input_str(c.str(), input, pieces[0].start, pieces[0].comment_end));
        assert(is_input_str(w.0, input, pieces[0].comment_end, pieces[0].pure_end));
        assert(rest_text(head) =~= input.subrange(p, pieces[0].comment_end) + input.subrange(pieces[0].comment_end, q));
        assert(input.subrange(p, end) =~= input.subrange(p, pieces[0].comment_end)
            + input.subrange(pieces[0].comment_end, q) + input.subrange(q, end));
    }
}

/// Chained pieces end no earlier than they start.
proof fn lemma_chain_end(pieces: Seq<WsPiece>, p: int, end: int)
    requires
        pieces_chain(pieces, p, end),
    ensures
        p <= end,
    decreases pieces.len(),
{
    if pieces.len() > 0 {
        lemma_chain_end(pieces.drop_first(), pieces[0].pure_end, end);
    }
}

/// Parsing keeps the text: whitespace parsed from `lo` to `hi` is exactly
/// the input between them, so printing it gives the input back.
pub proof fn lemma_parsed_whitespace_text(w: WhitespaceInner, input: Seq<u8>, lo: int, hi: int)
    requires
        0 <= lo <= input.len(),
        ws_matches(w, input, lo, hi),
    ensures
        Whitespace(w).text() == input.subrange(lo, hi),
{
    lemma_skip_ws_bounds(input, lo);
    let q = skip_ws(input, lo);
    lemma_ws_rest_chain(input, q);
    let (pieces, end) = spec_ws_scan(input, lo)->Ok_0;
    lemma_chain_end(pieces, q, end);
    lemma_rest_text_chain(w.rest@, input, pieces, q, end);
    assert(input.subrange(lo, hi) =~= input.subrange(lo, q) + input.subrange(q, hi));
}

impl Parse for WhitespaceInner {
    type Error = WhitespaceInnerError;

    /// The whitespace and comments the scan finds; on failure the parser
    /// ends where the scan stopped.
    open spec fn parses(before: Parser<'_>, r: Result<WhitespaceInner, WhitespaceInnerError>, after: Parser<'_>) -> bool {
        match r {
            Ok(w) => ws_matches(w, before.spec_input(), before.pos() as int, after.pos() as int),
            Err(e) => spec_ws_scan(before.spec_input(), before.pos() as int) == Err::<(Seq<WsPiece>, int), int>(after.pos() as int)
                && !e.spec_is_fatal(),
        }
    }

    fn parse_from(parser: &mut Parser<'_>) -> (r: Result<Self, Self::Error>) {
        let ghost s = parser.spec_input();
        let start = parser.cur_pos();
        let first_end = skip_ws_from(parser.input_bytes(), start);
        let first = PureWhitespace(parser.take_str(first_end));
        let mut rest: Vec<(Comment, PureWhitespace)> = Vec::new();
        let ghost mut pieces: Seq<WsPiece> = Seq::empty();
        loop
            invariant
                parser.wf(),
                parser.spec_input() == s,
                s == old(parser).spec_input(),
                start == old(parser).pos(),
                start <= first_end,
                parser.tag_stack() == old(parser).tag_stack(),
                first_end <= parser.pos() <= s.len(),
                is_input_str(first.0, s, start as int, first_end as int),
                first_end == skip_ws(s, start as int),
                rest_matches(rest@, s, pieces),
                spec_ws_rest(s, first_end as int) == match spec_ws_rest(s, parser.pos() as int) {
                    Ok((ps, end)) => Ok::<(Seq<WsPiece>, int), int>((pieces + ps, end)),
                    Err(x) => Err(x),
                },
            ensures
                parser.wf(),
                parser.spec_input() == s,
                parser.tag_stack() == old(parser).tag_stack(),
                start <= parser.pos(),
                is_input_str(first.0, s, start as int, first_end as int),
                first_end == skip_ws(s, start as int),
                rest_matches(rest@, s, pieces),
                spec_ws_rest(s, first_end as int) == Ok::<(Seq<WsPiece>, int), int>((pieces, parser.pos() as int)),
            decreases s.len() - parser.pos(),
        {
            let p = parser.cur_pos();
            match comment_step(parser.input_bytes(), p) {
                CommentStepExec::Block(e) => {
                    let c = parser.take_str(e);
                    let q = skip_ws_from(parser.input_bytes(), e);
                    let w = parser.take_str(q);
                    proof {
                        let piece = WsPiece { is_line: false, start: p as int, comment_end: e as int, pure_end: q as int };
                        let old_pieces = pieces;
                        pieces = pieces.push(piece);
                        assert(rest_matches(rest@.push((Comment::Block(BlockComment(c)), PureWhitespace(w))), s, pieces)) by {
                            assert forall|i: int| 0 <= i < pieces.len() implies {
                                let (cc, pp) = #[trigger] rest@.push((Comment::Block(BlockComment(c)), PureWhitespace(w)))[i];
                                &&& (cc is Line) == pieces[i].is_line
                                &&& is_input_str(cc.str(), s, pieces[i].start, pieces[i].comment_end)
                                &&& is_input_str(pp.0, s, pieces[i].comment_end, pieces[i].pure_end)
                            } by {
                                if i < old_pieces.len() {
                                    assert(rest@.push((Comment::Block(BlockComment(c)), PureWhitespace(w)))[i] == rest@[i]);
                                }
                            }
                        }
                        match spec_ws_rest(s, q as int) {
                            Ok((ps, end)) => {
                                assert(old_pieces + (seq![piece] + ps) =~= pieces + ps);
                            },
                            Err(_) => {},
                        }
                    }
                    rest.push((Comment::Block(BlockComment(c)), PureWhitespace(w)));
                },
                CommentStepExec::Line(e) => {
                    let c = parser.take_str(e);
                    let q = skip_ws_from(parser.input_bytes(), e);
                    let w = parser.take_str(q);
                    proof {
                        let piece = WsPiece { is_line: true, start: p as int, comment_end: e as int, pure_end: q as int };
                        let old_pieces = pieces;
                        pieces = pieces.push(piece);
                        assert(rest_matches(rest@.push((Comment::Line(LineComment(c)), PureWhitespace(w))), s, pieces)) by {
                            assert forall|i: int| 0 <= i < pieces.len() implies {
                                let (cc, pp) = #[trigger] rest@.push((Comment::Line(LineComment(c)), PureWhitespace(w)))[i];
                                &&& (cc is Line) == pieces[i].is_line
                                &&& is_input_str(cc.str(), s, pieces[i].start, pieces[i].comment_end)
                                &&& is_input_str(pp.0, s, pieces[i].comment_end, pieces[i].pure_end)
                            } by {
                                if i < old_pieces.len() {
                                    assert(rest@.push((Comment::Line(LineComment(c)), PureWhitespace(w)))[i] == rest@[i]);
                                }
                            }
                        }
                        match spec_ws_rest(s, q as int) {
                            Ok((ps, end)) => {
                                assert(old_pieces + (seq![piece] + ps) =~= pieces + ps);
                            },
                            Err(_) => {},
                        }
                    }
                    rest.push((Comment::Line(LineComment(c)), PureWhitespace(w)));
                },
                CommentStepExec::NoComment => {
                    proof {
                        assert(pieces + Seq::<WsPiece>::empty() =~= pieces);
                    }
                    break;
                },
                CommentStepExec::Fatal(x) => {
                    let range = parser.advance_to(x);
                    let block_err = ParserError { source: Box::new(BlockCommentError::MissingCommentEnd), range };
                    let err = ParserError { source: Box::new(CommentError::Block(block_err)), range };
                    return Err(WhitespaceInnerError::Comment(err));
                },
            }
        }
        Ok(WhitespaceInner { first, rest })
    }
}

/// Error from parsing whitespace
pub struct WhitespaceError(pub ParserError<WhitespaceInnerError>);

impl ParseError for WhitespaceError {
    open spec fn spec_is_fatal(&self) -> bool {
        self.0.spec_is_fatal()
    }

    fn is_fatal(&self) -> (r: bool) {
        self.0.is_fatal()
    }

    open spec fn spec_pos(&self) -> Option<usize> {
        self.0.spec_pos()
    }

    fn pos(&self) -> (r: Option<usize>) {
        self.0.pos()
    }
}

impl Parse for Whitespace {
    type Error = WhitespaceError;

    /// Empty whitespace under [`ParserTag::SkipWhitespace`], else the
    /// whitespace and comments the scan finds.
    open spec fn parses(before: Parser<'_>, r: Result<Whitespace, WhitespaceError>, after: Parser<'_>) -> bool {
        &&& before.has_tag_spec(ParserTag::SkipWhitespace) ==> {
            &&& after.pos() == before.pos()
            &&& r matches Ok(w) && w.0.rest@.len() == 0 && w.0.first.0.text().len() == 0
        }
        &&& !before.has_tag_spec(ParserTag::SkipWhitespace) ==> match r {
            Ok(w) => ws_matches(w.0, before.spec_input(), before.pos() as int, after.pos() as int),
            Err(e) => spec_ws_scan(before.spec_input(), before.pos() as int) == Err::<(Seq<WsPiece>, int), int>(after.pos() as int)
                && !e.spec_is_fatal(),
        }
    }

    fn parse_from(parser: &mut Parser<'_>) -> (r: Result<Self, Self::Error>) {
        if parser.has_tag(ParserTag::SkipWhitespace) {
            let pos = parser.cur_pos();
            let s = parser.take_str(pos);
            proof {
                assert(s.text().len() == 0);
            }
            return Ok(Whitespace(WhitespaceInner { first: PureWhitespace(s), rest: Vec::new() }));
        }
        let start = parser.cur_pos();
        match WhitespaceInner::parse_from(parser) {
            Ok(inner) => Ok(Whitespace(inner)),
            Err(err) => {
                let end = parser.cur_pos();
                Err(WhitespaceError(ParserError { source: Box::new(err), range: AstRange { start, end } }))
            },
        }
    }
}

} // verus!
