//! Lexing of comments, whitespace and shebangs.
//!
//! Each scanner looks at the source bytes from a position and says how far
//! the token it recognises extends, or why there is none.
use vstd::prelude::*;
use crate::text::{skip_ws, skip_ws_from, ws_width, has_at, find_pair, find_byte, at2, at3, at4, find_pair_in, find_byte_in};

verus! {

/// Error from lexing a block comment
#[derive(Clone, Copy, Debug, PartialEq, Eq, Structural)]
pub enum BlockCommentError {
    /// Expected `/*` (except `/*!` or `/**`)
    NoComment,
    /// Expected `*/` after `/*` (fatal)
    MissingCommentEnd,
}

/// Error from lexing a line comment
#[derive(Clone, Copy, Debug, PartialEq, Eq, Structural)]
pub enum LineCommentError {
    /// Expected `//` (except `///` or `//!`)
    NoComment,
    /// Expected newline after `//`
    Newline,
}

impl BlockCommentError {
    /// Whether this error stops parsing instead of letting an alternative be tried
    pub fn is_fatal(&self) -> (r: bool)
        ensures
            r == (*self == BlockCommentError::MissingCommentEnd),
    {
        match self {
            BlockCommentError::NoComment => false,
            BlockCommentError::MissingCommentEnd => true,
        }
    }
}

/// The source at `p` starts with `pat`.
pub open spec fn at(s: Seq<u8>, p: int, pat: Seq<u8>) -> bool {
    has_at(s, p, pat)
}

/// Whether a block comment opening at `p` is a doc comment
/// (`/**` except `/***` and `/**/`, or `/*!`).
pub open spec fn is_block_doc(s: Seq<u8>, p: int) -> bool {
    (at(s, p, seq![0x2fu8, 0x2a, 0x2a]) && !at(s, p, seq![0x2fu8, 0x2a, 0x2a, 0x2a]) && !at(
        s,
        p,
        seq![0x2fu8, 0x2a, 0x2a, 0x2f],
    )) || at(s, p, seq![0x2fu8, 0x2a, 0x21])
}

pub proof fn lemma_find_pair_bounds(s: Seq<u8>, from: int, end: int, a: u8, b: u8)
    ensures
        find_pair(s, from, end, a, b) matches Some(i) ==> from <= i && i + 2 <= end && end <= s.len()
            && s[i] == a && s[i + 1] == b,
    decreases end - from,
{
    if !(from < 0 || from + 2 > end || end > s.len()) && !(s[from] == a && s[from + 1] == b) {
        lemma_find_pair_bounds(s, from + 1, end, a, b);
    }
}

/// Where the body of a block comment ends, scanning from `p` with `depth`
/// comments still open: each step finds the next `*/`; a `/*` before it
/// opens one more level, otherwise the `*/` closes one.
pub open spec fn block_scan(s: Seq<u8>, p: int, depth: nat) -> Result<int, int>
    decreases s.len() - p,
{
    if depth == 0 {
        Ok(p)
    } else {
        match find_pair(s, p, s.len() as int, 0x2a, 0x2f) {
            None => Err(p),
            Some(c) => {
                proof {
                    lemma_find_pair_bounds(s, p, s.len() as int, 0x2a, 0x2f);
                    lemma_find_pair_bounds(s, p, c, 0x2f, 0x2a);
                }
                match find_pair(s, p, c, 0x2f, 0x2a) {
                    Some(o) => block_scan(s, o + 2, depth + 1),
                    None => block_scan(s, c + 2, (depth - 1) as nat),
                }
            },
        }
    }
}

/// The result of lexing a block comment at `p`: the position after it.
pub open spec fn spec_block_comment(s: Seq<u8>, p: int) -> Result<int, BlockCommentError> {
    if at(s, p, seq![0x2fu8, 0x2a]) && !is_block_doc(s, p) {
        match block_scan(s, p + 2, 1) {
            Ok(e) => Ok(e),
            Err(_) => Err(BlockCommentError::MissingCommentEnd),
        }
    } else {
        Err(BlockCommentError::NoComment)
    }
}

/// How far lexing a block comment at `p` gets: past the comment, to where
/// the closing `*/` was missing, or nowhere.
pub open spec fn spec_block_comment_reach(s: Seq<u8>, p: int) -> int {
    if at(s, p, seq![0x2fu8, 0x2a]) && !is_block_doc(s, p) {
        match block_scan(s, p + 2, 1) {
            Ok(e) => e,
            Err(stop) => stop,
        }
    } else {
        p
    }
}

/// The result of lexing a line comment at `p`: the position after its newline.
pub open spec fn spec_line_comment(s: Seq<u8>, p: int) -> Result<int, LineCommentError> {
    let is_doc = (at(s, p, seq![0x2fu8, 0x2f, 0x2f]) && !at(s, p, seq![0x2fu8, 0x2f, 0x2f, 0x2f]))
        || at(s, p, seq![0x2fu8, 0x2f, 0x21]);
    if at(s, p, seq![0x2fu8, 0x2f]) && !is_doc {
        match find_byte(s, p, 0x0a) {
            Some(nl) => Ok(nl + 1),
            None => Err(LineCommentError::Newline),
        }
    } else {
        Err(LineCommentError::NoComment)
    }
}

/// Lexes a block comment starting at `from`, returning the position after it.
pub fn block_comment(s: &[u8], from: usize) -> (r: Result<usize, (BlockCommentError, usize)>)
    requires
        from <= s@.len(),
    ensures
        match r {
            Ok(e) => spec_block_comment(s@, from as int) == Ok::<int, BlockCommentError>(e as int)
                && spec_block_comment_reach(s@, from as int) == e,
            Err((e, reach)) => spec_block_comment(s@, from as int) == Err::<int, BlockCommentError>(e)
                && spec_block_comment_reach(s@, from as int) == reach,
        },
        r matches Ok(e) ==> from + 4 <= e <= s@.len(),
        r matches Err((_, reach)) ==> from <= reach <= s@.len(),
{
    let n = s.len();
    let is_doc = (at3(s, from, 0x2f, 0x2a, 0x2a) && !at4(s, from, 0x2f, 0x2a, 0x2a, 0x2a)
        && !at4(s, from, 0x2f, 0x2a, 0x2a, 0x2f)) || at3(s, from, 0x2f, 0x2a, 0x21);
    if !at2(s, from, 0x2f, 0x2a) || is_doc {
                return Err((BlockCommentError::NoComment, from));
    }
        let mut p = from + 2;
    let mut depth: usize = 1;
    while depth != 0
        invariant
            s@.len() == s.len(),
            from + 2 <= p <= s@.len(),
            depth <= p,
            block_scan(s@, p as int, depth as nat) == block_scan(s@, from + 2, 1),
            depth == 0 ==> from + 4 <= p,
            at(s@, from as int, seq![0x2fu8, 0x2a]) && !is_block_doc(s@, from as int),
        decreases s@.len() - p,
    {
        proof {
            lemma_find_pair_bounds(s@, p as int, s@.len() as int, 0x2a, 0x2f);
        }
        let close = match find_pair_in(s, p, s.len(), 0x2a, 0x2f) {
            Some(c) => c,
            None => return Err((BlockCommentError::MissingCommentEnd, p)),
        };
        proof {
            lemma_find_pair_bounds(s@, p as int, close as int, 0x2f, 0x2a);
        }
        match find_pair_in(s, p, close, 0x2f, 0x2a) {
            Some(open) => {
                p = open + 2;
                depth = depth + 1;
            },
            None => {
                p = close + 2;
                depth = depth - 1;
            },
        }
    }
    Ok(p)
}

/// Lexes a line comment starting at `from`, returning the position after its
/// newline.
pub fn line_comment(s: &[u8], from: usize) -> (r: Result<usize, LineCommentError>)
    requires
        from <= s@.len(),
    ensures
        match r {
            Ok(e) => spec_line_comment(s@, from as int) == Ok::<int, LineCommentError>(e as int),
            Err(e) => spec_line_comment(s@, from as int) == Err::<int, LineCommentError>(e),
        },
        r matches Ok(e) ==> from + 3 <= e <= s@.len(),
{
    let n = s.len();
    let is_doc = (at3(s, from, 0x2f, 0x2f, 0x2f) && !at4(s, from, 0x2f, 0x2f, 0x2f, 0x2f))
        || at3(s, from, 0x2f, 0x2f, 0x21);
    if at2(s, from, 0x2f, 0x2f) && !is_doc {
        match find_byte_in(s, from, 0x0a) {
            Some(nl) => {
                proof {
                    assert(s@[from as int] == 0x2f);
                }
                Ok(nl + 1)
            },
            None => Err(LineCommentError::Newline),
        }
    } else {
        Err(LineCommentError::NoComment)
    }
}

/// Lexing a block comment at `p` never moves backwards.
pub proof fn lemma_block_scan_bounds(s: Seq<u8>, p: int, depth: nat)
    requires
        0 <= p <= s.len(),
    ensures
        block_scan(s, p, depth) matches Ok(e) ==> p <= e <= s.len(),
        block_scan(s, p, depth) matches Err(x) ==> p <= x <= s.len(),
    decreases s.len() - p,
{
    if depth > 0 {
        lemma_find_pair_bounds(s, p, s.len() as int, 0x2a, 0x2f);
        match find_pair(s, p, s.len() as int, 0x2a, 0x2f) {
            None => {},
            Some(c) => {
                lemma_find_pair_bounds(s, p, c, 0x2f, 0x2a);
                match find_pair(s, p, c, 0x2f, 0x2a) {
                    Some(o) => lemma_block_scan_bounds(s, o + 2, depth + 1),
                    None => lemma_block_scan_bounds(s, c + 2, (depth - 1) as nat),
                }
            },
        }
    }
}

/// Searching for a byte never moves backwards.
pub proof fn lemma_find_byte_bounds(s: Seq<u8>, from: int, c: u8)
    ensures
        find_byte(s, from, c) matches Some(i) ==> from <= i < s.len() && s[i] == c,
    decreases s.len() - from,
{
    if 0 <= from < s.len() && s[from] != c {
        lemma_find_byte_bounds(s, from + 1, c);
    }
}

/// Skipping whitespace never moves backwards.
pub proof fn lemma_skip_ws_bounds(s: Seq<u8>, i: int)
    requires
        0 <= i <= s.len(),
    ensures
        i <= skip_ws(s, i) <= s.len(),
    decreases s.len() - i,
{
    if 0 <= i < s.len() && ws_width(s, i) > 0 {
        lemma_skip_ws_bounds(s, i + ws_width(s, i));
    }
}

/// What comes at a position after pure whitespace.
pub enum CommentStep {
    /// A block comment ending at the position
    Block(int),
    /// A line comment ending at the position
    Line(int),
    /// No comment
    NoComment,
    /// An unterminated block comment, lexed up to the position
    Fatal(int),
}

/// What comes at position `p`: a block comment, else a line comment.
pub open spec fn spec_comment_step(s: Seq<u8>, p: int) -> CommentStep {
    match spec_block_comment(s, p) {
        Ok(e) => CommentStep::Block(e),
        Err(BlockCommentError::MissingCommentEnd) => CommentStep::Fatal(spec_block_comment_reach(s, p)),
        Err(BlockCommentError::NoComment) => match spec_line_comment(s, p) {
            Ok(e) => CommentStep::Line(e),
            Err(_) => CommentStep::NoComment,
        },
    }
}

/// One comment of a whitespace, with the pure whitespace after it:
/// the comment spans `start .. comment_end`, the pure whitespace
/// `comment_end .. pure_end`.
pub struct WsPiece {
    pub is_line: bool,
    pub start: int,
    pub comment_end: int,
    pub pure_end: int,
}

pub proof fn lemma_comment_step_bounds(s: Seq<u8>, p: int)
    requires
        0 <= p <= s.len(),
    ensures
        spec_comment_step(s, p) matches CommentStep::Block(e) ==> p < e <= s.len(),
        spec_comment_step(s, p) matches CommentStep::Line(e) ==> p < e <= s.len(),
        spec_comment_step(s, p) matches CommentStep::Fatal(x) ==> p <= x <= s.len(),
{
    if at(s, p, seq![0x2fu8, 0x2a]) {
        lemma_block_scan_bounds(s, p + 2, 1);
    }
    lemma_find_byte_bounds(s, p, 0x0a);
}

/// The comments (each with the pure whitespace after it) from position `p`,
/// and where they end; or where lexing failed fatally.
pub open spec fn spec_ws_rest(s: Seq<u8>, p: int) -> Result<(Seq<WsPiece>, int), int>
    decreases s.len() - p,
{
    if p < 0 || p > s.len() {
        Ok((Seq::empty(), p))
    } else {
        proof {
            lemma_comment_step_bounds(s, p);
        }
        match spec_comment_step(s, p) {
            CommentStep::Block(e) => {
                proof {
                    lemma_skip_ws_bounds(s, e);
                }
                let q = skip_ws(s, e);
                match spec_ws_rest(s, q) {
                    Ok((pieces, end)) => Ok(
                        (seq![WsPiece { is_line: false, start: p, comment_end: e, pure_end: q }] + pieces, end),
                    ),
                    Err(x) => Err(x),
                }
            },
            CommentStep::Line(e) => {
                proof {
                    lemma_skip_ws_bounds(s, e);
                }
                let q = skip_ws(s, e);
                match spec_ws_rest(s, q) {
                    Ok((pieces, end)) => Ok(
                        (seq![WsPiece { is_line: true, start: p, comment_end: e, pure_end: q }] + pieces, end),
                    ),
                    Err(x) => Err(x),
                }
            },
            CommentStep::NoComment => Ok((Seq::empty(), p)),
            CommentStep::Fatal(x) => Err(x),
        }
    }
}

/// Lexes a comment at `from`.
pub fn comment_step(s: &[u8], from: usize) -> (r: CommentStepExec)
    requires
        from <= s@.len(),
    ensures
        r.spec() == spec_comment_step(s@, from as int),
        r matches CommentStepExec::Block(e) ==> from < e <= s@.len(),
        r matches CommentStepExec::Line(e) ==> from < e <= s@.len(),
        r matches CommentStepExec::Fatal(x) ==> from <= x <= s@.len(),
{
    proof {
        lemma_comment_step_bounds(s@, from as int);
    }
    match block_comment(s, from) {
        Ok(e) => CommentStepExec::Block(e),
        Err((BlockCommentError::MissingCommentEnd, reach)) => CommentStepExec::Fatal(reach),
        Err((BlockCommentError::NoComment, _)) => match line_comment(s, from) {
            Ok(e) => CommentStepExec::Line(e),
            Err(_) => CommentStepExec::NoComment,
        },
    }
}

/// What comes at a position after pure whitespace (positions as `usize`).
pub enum CommentStepExec {
    Block(usize),
    Line(usize),
    NoComment,
    Fatal(usize),
}

impl CommentStepExec {
    /// The step this stands for.
    pub open spec fn spec(self) -> CommentStep {
        match self {
            CommentStepExec::Block(e) => CommentStep::Block(e as int),
            CommentStepExec::Line(e) => CommentStep::Line(e as int),
            CommentStepExec::NoComment => CommentStep::NoComment,
            CommentStepExec::Fatal(x) => CommentStep::Fatal(x as int),
        }
    }
}

} // verus!
