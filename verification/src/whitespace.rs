//! Whitespace: runs of pure whitespace and comments, and how they are
//! formatted.
use vstd::prelude::*;
use crate::ast_str::{AstStr, AstStrRepr, newlines};
use crate::context::{Config, Context, FormatTag, spec_offset_depth, offset_depth};
use crate::ast_str::{lemma_count_byte_bound, lemma_count_byte_concat, lemma_count_char_newline, lemma_count_constant, lemma_count_repeat, repeat, string_bytes};
use vstd::utf8::encode_scalar;

verus! {

/// Pure whitespace (no comments)
pub struct PureWhitespace(pub AstStr);

/// A line comment, including its newline
pub struct LineComment(pub AstStr);

/// A block comment
pub struct BlockComment(pub AstStr);

/// A comment
pub enum Comment {
    Line(LineComment),
    Block(BlockComment),
}

/// Whitespace contents: pure whitespace, then comments each followed by
/// pure whitespace
pub struct WhitespaceInner {
    pub first: PureWhitespace,
    pub rest: Vec<(Comment, PureWhitespace)>,
}

/// Whitespace
pub struct Whitespace(pub WhitespaceInner);

impl Comment {
    /// The string of this comment.
    pub open spec fn str(self) -> AstStr {
        match self {
            Comment::Line(c) => c.0,
            Comment::Block(c) => c.0,
        }
    }

    /// Returns if this is a line comment
    pub fn is_line(&self) -> (r: bool)
        ensures
            r == (*self is Line),
    {
        match self {
            Comment::Line(_) => true,
            Comment::Block(_) => false,
        }
    }
}

/// The text of the comments and pure whitespace after the first piece.
pub open spec fn rest_text(rest: Seq<(Comment, PureWhitespace)>) -> Seq<u8>
    decreases rest.len(),
{
    if rest.len() == 0 {
        Seq::empty()
    } else {
        rest_text(rest.drop_last()) + rest.last().0.str().text() + rest.last().1.0.text()
    }
}

impl Whitespace {
    /// The text of this whitespace.
    pub open spec fn text(self) -> Seq<u8> {
        self.0.first.0.text() + rest_text(self.0.rest@)
    }

    /// Whether every piece of this whitespace has a length that fits a `usize`.
    pub open spec fn fits(self) -> bool {
        &&& self.0.first.0.text().len() <= usize::MAX
        &&& forall|i: int| 0 <= i < self.0.rest@.len() ==> {
            &&& (#[trigger] self.0.rest@[i]).0.str().text().len() <= usize::MAX
            &&& self.0.rest@[i].1.0.text().len() <= usize::MAX
        }
    }

    /// Returns if this whitespace is empty
    pub fn is_empty(&self) -> (r: bool)
        requires
            self.0.first.0.text().len() <= usize::MAX,
        ensures
            r == (self.0.first.0.text().len() == 0 && self.0.rest@.len() == 0),
    {
        self.0.first.0.is_empty() && self.0.rest.len() == 0
    }

    /// Returns if this whitespace only contains pure whitespace
    pub fn is_pure(&self) -> (r: bool)
        ensures
            r == (self.0.rest@.len() == 0),
    {
        self.0.rest.len() == 0
    }

    /// Joins `other` to this whitespace as a suffix
    pub fn join_suffix(&mut self, other: Self)
        ensures
            final(self).text() == old(self).text() + other.text(),
            final(self).0.rest@.len() == old(self).0.rest@.len() + other.0.rest@.len(),
            forall|i: int| 0 <= i < old(self).0.rest@.len() ==> #[trigger] final(self).0.rest@[i].0 == old(self).0.rest@[i].0,
            forall|j: int| 0 <= j < other.0.rest@.len() ==> final(self).0.rest@[old(self).0.rest@.len() + j] == #[trigger] other.0.rest@[j],
    {
        let Whitespace(WhitespaceInner { first: rhs_first, rest: mut rhs_rest }) = other;
        let ghost old_rest = self.0.rest@;
        let ghost old_first = self.0.first.0.text();
        let ghost rhs_rest0 = rhs_rest@;
        let n = self.0.rest.len();
        if n == 0 {
            let mut lhs_last = AstStr { repr: AstStrRepr::Spaces { len: 0 }, input: None };
            std::mem::swap(&mut lhs_last, &mut self.0.first.0);
            self.0.first.0 = AstStr::join(lhs_last, rhs_first.0);
            proof {
                assert(rest_text(old_rest) =~= Seq::empty());
            }
        } else {
            let (comment, pure) = self.0.rest.pop().unwrap();
            let joined = AstStr::join(pure.0, rhs_first.0);
            self.0.rest.push((comment, PureWhitespace(joined)));
            proof {
                assert(self.0.rest@.drop_last() =~= old_rest.drop_last());
                assert(comment == old_rest.last().0);
            }
        }
        let ghost mid = self.0.rest@;
        let ghost mid_text = self.text();
        self.0.rest.append(&mut rhs_rest);
        proof {
            lemma_rest_text_concat(mid, rhs_rest0);
            assert(self.0.rest@ =~= mid + rhs_rest0);
        }
    }

    /// Joins `other` to this whitespace as a prefix
    pub fn join_prefix(&mut self, other: Self)
        ensures
            final(self).text() == other.text() + old(self).text(),
            final(self).0.rest@.len() == old(self).0.rest@.len() + other.0.rest@.len(),
            forall|j: int| 0 <= j < other.0.rest@.len() ==> #[trigger] final(self).0.rest@[j].0 == other.0.rest@[j].0,
            forall|i: int| 0 <= i < old(self).0.rest@.len() ==> final(self).0.rest@[other.0.rest@.len() + i] == #[trigger] old(self).0.rest@[i],
    {
        let mut this = Whitespace(WhitespaceInner {
            first: PureWhitespace(AstStr { repr: AstStrRepr::Spaces { len: 0 }, input: None }),
            rest: Vec::new(),
        });
        std::mem::swap(&mut this, self);
        let mut other = other;
        other.join_suffix(this);
        *self = other;
    }
}

/// The text of adjacent runs of comments is the text of each run.
pub proof fn lemma_rest_text_concat(a: Seq<(Comment, PureWhitespace)>, b: Seq<(Comment, PureWhitespace)>)
    ensures
        rest_text(a + b) == rest_text(a) + rest_text(b),
    decreases b.len(),
{
    if b.len() == 0 {
        assert(a + b =~= a);
        assert(rest_text(a) + Seq::empty() =~= rest_text(a));
    } else {
        assert((a + b).drop_last() =~= a + b.drop_last());
        lemma_rest_text_concat(a, b.drop_last());
        assert(rest_text(a + b) =~= rest_text(a) + rest_text(b));
    }
}


/// How whitespace is formatted
#[derive(Clone, Copy, Debug, PartialEq, Eq, Structural)]
pub enum WhitespaceFormatKind {
    /// Remove it
    Remove,
    /// Replace it by `len` spaces
    Spaces { len: u16 },
    /// Replace it by a newline and indentation
    Indent {
        /// Use the previous indentation
        use_prev: bool,
        /// Remove if the whitespace is pure
        remove_if_pure: bool,
    },
}

/// Whitespace formatting configuration: `None` preserves the whitespace
#[derive(Clone, Copy, Debug, PartialEq, Eq, Structural)]
pub struct WhitespaceConfig {
    pub format: Option<WhitespaceFormatKind>,
}

impl Whitespace {
    /// Preserve the whitespace
    pub fn preserve() -> (r: WhitespaceConfig)
        ensures
            r == (WhitespaceConfig { format: None }),
    {
        WhitespaceConfig { format: None }
    }

    /// Indent on the previous level (for closing delimiters)
    pub fn indent_close() -> (r: WhitespaceConfig)
        ensures
            r == (WhitespaceConfig {
                format: Some(WhitespaceFormatKind::Indent { use_prev: true, remove_if_pure: false }),
            }),
    {
        Self::prev_indent(false)
    }

    /// Indent on the previous level, removing pure whitespace
    pub fn indent_close_remove_if_pure() -> (r: WhitespaceConfig)
        ensures
            r == (WhitespaceConfig {
                format: Some(WhitespaceFormatKind::Indent { use_prev: true, remove_if_pure: true }),
            }),
    {
        Self::prev_indent(true)
    }

    /// Indent, removing pure whitespace
    pub fn indent_remove_if_pure() -> (r: WhitespaceConfig)
        ensures
            r == (WhitespaceConfig {
                format: Some(WhitespaceFormatKind::Indent { use_prev: false, remove_if_pure: true }),
            }),
    {
        Self::indent(true)
    }

    /// Remove the whitespace
    pub fn remove() -> (r: WhitespaceConfig)
        ensures
            r == (WhitespaceConfig { format: Some(WhitespaceFormatKind::Remove) }),
    {
        WhitespaceConfig { format: Some(WhitespaceFormatKind::Remove) }
    }

    /// A single space
    pub fn single() -> (r: WhitespaceConfig)
        ensures
            r == (WhitespaceConfig { format: Some(WhitespaceFormatKind::Spaces { len: 1 }) }),
    {
        WhitespaceConfig { format: Some(WhitespaceFormatKind::Spaces { len: 1 }) }
    }

    /// `len` spaces
    pub fn spaces(len: usize) -> (r: WhitespaceConfig)
        requires
            len <= u16::MAX,
        ensures
            r == (WhitespaceConfig { format: Some(WhitespaceFormatKind::Spaces { len: len as u16 }) }),
    {
        WhitespaceConfig { format: Some(WhitespaceFormatKind::Spaces { len: len as u16 }) }
    }

    /// Indentation on the current level
    pub fn indent(remove_if_pure: bool) -> (r: WhitespaceConfig)
        ensures
            r == (WhitespaceConfig {
                format: Some(WhitespaceFormatKind::Indent { use_prev: false, remove_if_pure }),
            }),
    {
        WhitespaceConfig {
            format: Some(WhitespaceFormatKind::Indent { use_prev: false, remove_if_pure }),
        }
    }

    /// Indentation on the previous level
    pub fn prev_indent(remove_if_pure: bool) -> (r: WhitespaceConfig)
        ensures
            r == (WhitespaceConfig {
                format: Some(WhitespaceFormatKind::Indent { use_prev: true, remove_if_pure }),
            }),
    {
        WhitespaceConfig {
            format: Some(WhitespaceFormatKind::Indent { use_prev: true, remove_if_pure }),
        }
    }
}

/// `n` limited to the range `lo ..= hi`.
pub open spec fn clamp(n: int, lo: int, hi: int) -> int {
    if n < lo {
        lo
    } else if n > hi {
        hi
    } else {
        n
    }
}

/// The newlines a string had in the input, or, if it was not parsed, has now.
pub open spec fn input_newlines(s: AstStr) -> nat {
    match s.input {
        Some(b) => newlines(b@),
        None => newlines(s.text()),
    }
}

/// The indentation that replaces `cur`: its newlines kept within the
/// configured number of empty lines (one more when not after a newline),
/// then `depth` indentation strings.
pub open spec fn spec_indent_repr(cfg: Config, depth: usize, cur: AstStr, after_newline: bool) -> AstStrRepr {
    let lo = if after_newline { cfg.min_empty_lines as int } else { cfg.min_empty_lines + 1 };
    let hi = if after_newline { cfg.max_empty_lines as int } else { cfg.max_empty_lines + 1 };
    AstStrRepr::Indentation {
        indent: cfg.indent,
        newlines: clamp(input_newlines(cur) as int, lo, hi) as usize,
        depth,
    }
}

/// The depth used for a piece: one level up for the last piece when the
/// previous indentation is asked for.
pub open spec fn piece_depth(depth: usize, prev: bool) -> usize {
    if prev { spec_offset_depth(depth, -1i16) } else { depth }
}

/// What the first pure whitespace becomes.
pub open spec fn spec_prefix_repr(
    kind: WhitespaceFormatKind,
    cfg: Config,
    depth: usize,
    cur: AstStr,
    is_last: bool,
    after_newline: bool,
) -> AstStrRepr {
    match kind {
        WhitespaceFormatKind::Remove => AstStrRepr::Static(""),
        WhitespaceFormatKind::Spaces { len } => AstStrRepr::Spaces { len },
        WhitespaceFormatKind::Indent { use_prev, remove_if_pure } => if remove_if_pure && is_last {
            AstStrRepr::Static("")
        } else {
            spec_indent_repr(cfg, piece_depth(depth, use_prev && is_last), cur, after_newline)
        },
    }
}

/// What pure whitespace after a line comment becomes.
pub open spec fn spec_after_newline_repr(
    kind: WhitespaceFormatKind,
    cfg: Config,
    depth: usize,
    cur: AstStr,
    is_last: bool,
) -> AstStrRepr {
    match kind {
        WhitespaceFormatKind::Remove | WhitespaceFormatKind::Spaces { .. } => AstStrRepr::Static(""),
        WhitespaceFormatKind::Indent { use_prev, .. } => spec_indent_repr(
            cfg,
            piece_depth(depth, use_prev && is_last),
            cur,
            true,
        ),
    }
}

/// What pure whitespace after a block comment becomes.
pub open spec fn spec_normal_repr(
    kind: WhitespaceFormatKind,
    cfg: Config,
    depth: usize,
    cur: AstStr,
    is_last: bool,
) -> AstStrRepr {
    match kind {
        WhitespaceFormatKind::Remove => AstStrRepr::Static(""),
        WhitespaceFormatKind::Spaces { len } => AstStrRepr::Spaces { len },
        WhitespaceFormatKind::Indent { use_prev, .. } => spec_indent_repr(
            cfg,
            piece_depth(depth, use_prev && is_last),
            cur,
            false,
        ),
    }
}

/// Whether the configured empty line bounds can be used.
pub open spec fn config_ok(cfg: Config) -> bool {
    &&& cfg.min_empty_lines <= cfg.max_empty_lines
    &&& cfg.max_empty_lines < usize::MAX
}

/// Whether every piece's text, and input, has a length that fits a `usize`.
pub open spec fn str_fits(s: AstStr) -> bool {
    &&& s.text().len() <= usize::MAX
    &&& (s.input matches Some(b) ==> b@.len() <= usize::MAX)
}

impl WhitespaceFormatKind {
    /// Returns the indentation string, with a newline *before*
    fn indent_str_nl(cfg: &Config, depth: usize, cur_str: &AstStr, after_newline: bool) -> (r: AstStrRepr)
        requires
            config_ok(*cfg),
            str_fits(*cur_str),
        ensures
            r == spec_indent_repr(*cfg, depth, *cur_str, after_newline),
    {
        let (min_newlines, max_newlines) = if after_newline {
            (cfg.min_empty_lines, cfg.max_empty_lines)
        } else {
            (cfg.min_empty_lines + 1, cfg.max_empty_lines + 1)
        };
        let newlines = match &cur_str.input {
            Some(input) => {
                proof {
                    assert(input@.take(input@.len() as int) =~= input@);
                }
                crate::text::count_byte_in(input.as_slice(), input.len(), 0x0a)
            },
            None => cur_str.count_newlines(),
        };
        let newlines = if newlines < min_newlines {
            min_newlines
        } else if newlines > max_newlines {
            max_newlines
        } else {
            newlines
        };
        AstStrRepr::Indentation { indent: cfg.indent.clone(), newlines, depth }
    }

    /// Returns the prefix string
    fn prefix_str(self, cfg: &Config, depth: usize, cur_str: &AstStr, is_last: bool, after_newline: bool) -> (r: AstStrRepr)
        requires
            config_ok(*cfg),
            str_fits(*cur_str),
        ensures
            r == spec_prefix_repr(self, *cfg, depth, *cur_str, is_last, after_newline),
    {
        match self {
            WhitespaceFormatKind::Remove => AstStrRepr::Static(""),
            WhitespaceFormatKind::Spaces { len } => AstStrRepr::Spaces { len },
            WhitespaceFormatKind::Indent { use_prev, remove_if_pure } => if remove_if_pure && is_last {
                AstStrRepr::Static("")
            } else {
                let d = if use_prev && is_last { offset_depth(depth, -1) } else { depth };
                Self::indent_str_nl(cfg, d, cur_str, after_newline)
            },
        }
    }

    /// Returns the string after a newline
    fn after_newline_str(self, cfg: &Config, depth: usize, cur_str: &AstStr, is_last: bool) -> (r: AstStrRepr)
        requires
            config_ok(*cfg),
            str_fits(*cur_str),
        ensures
            r == spec_after_newline_repr(self, *cfg, depth, *cur_str, is_last),
    {
        match self {
            WhitespaceFormatKind::Remove | WhitespaceFormatKind::Spaces { .. } => AstStrRepr::Static(""),
            WhitespaceFormatKind::Indent { use_prev, .. } => {
                let d = if use_prev && is_last { offset_depth(depth, -1) } else { depth };
                Self::indent_str_nl(cfg, d, cur_str, true)
            },
        }
    }

    /// Returns the normal string
    fn normal_str(self, cfg: &Config, depth: usize, cur_str: &AstStr, is_last: bool) -> (r: AstStrRepr)
        requires
            config_ok(*cfg),
            str_fits(*cur_str),
        ensures
            r == spec_normal_repr(self, *cfg, depth, *cur_str, is_last),
    {
        match self {
            WhitespaceFormatKind::Remove => AstStrRepr::Static(""),
            WhitespaceFormatKind::Spaces { len } => AstStrRepr::Spaces { len },
            WhitespaceFormatKind::Indent { use_prev, .. } => {
                let d = if use_prev && is_last { offset_depth(depth, -1) } else { depth };
                Self::indent_str_nl(cfg, d, cur_str, false)
            },
        }
    }
}


/// Whether every piece of a whitespace has lengths that fit a `usize`.
pub open spec fn ws_fits(ws: Whitespace) -> bool {
    &&& str_fits(ws.0.first.0)
    &&& forall|i: int| 0 <= i < ws.0.rest@.len() ==> {
        &&& str_fits((#[trigger] ws.0.rest@[i]).0.str())
        &&& str_fits(ws.0.rest@[i].1.0)
    }
}

/// What the comment at position `i` of `n` becomes: the last line comment
/// gets a newline if it has none.
pub open spec fn spec_formatted_comment(c: Comment, is_last: bool) -> Comment {
    match c {
        Comment::Line(l) => if is_last && newlines(l.0.text()) == 0 {
            Comment::Line(LineComment(AstStr {
                repr: AstStrRepr::Join {
                    lhs: Box::new(AstStr { repr: l.0.repr, input: None }),
                    rhs: Box::new(AstStr { repr: AstStrRepr::Char('\n'), input: None }),
                },
                input: l.0.input,
            }))
        } else {
            c
        },
        Comment::Block(_) => c,
    }
}

/// What the pure whitespace after comment `c` becomes.
pub open spec fn spec_formatted_pure(
    kind: WhitespaceFormatKind,
    cfg: Config,
    depth: usize,
    c: Comment,
    pure: AstStr,
    is_last: bool,
) -> AstStr {
    AstStr {
        repr: if c is Line {
            spec_after_newline_repr(kind, cfg, depth, pure, is_last)
        } else {
            spec_normal_repr(kind, cfg, depth, pure, is_last)
        },
        input: pure.input,
    }
}

/// Whether `after` is `before` formatted with `kind` under `cfg` at `depth`.
///
/// The first pure whitespace is replaced by the prefix string; the pure
/// whitespace after each comment by the string after a newline (after line
/// comments) or the normal string (after block comments); a last line comment
/// without a newline gets one.
pub open spec fn is_formatted(
    before: Whitespace,
    after: Whitespace,
    kind: WhitespaceFormatKind,
    cfg: Config,
    depth: usize,
    after_newline: bool,
) -> bool {
    &&& after.0.first.0 == (AstStr {
        repr: spec_prefix_repr(kind, cfg, depth, before.0.first.0, before.0.rest@.len() == 0, after_newline),
        input: before.0.first.0.input,
    })
    &&& after.0.rest@.len() == before.0.rest@.len()
    &&& forall|i: int| 0 <= i < before.0.rest@.len() ==> {
        let n = before.0.rest@.len();
        let (c, p) = #[trigger] before.0.rest@[i];
        &&& after.0.rest@[i].0 == spec_formatted_comment(c, i == n - 1)
        &&& after.0.rest@[i].1.0 == spec_formatted_pure(kind, cfg, depth, c, p.0, i == n - 1)
    }
}

/// Whether the configured indentation string has no newline.
pub open spec fn indent_single_line(cfg: Config) -> bool {
    newlines(string_bytes(cfg.indent)) == 0
}

/// Indentation built from a string keeps its newline count when built again.
proof fn lemma_indent_repr_stable(cfg: Config, depth: usize, cur: AstStr, after_newline: bool)
    requires
        config_ok(cfg),
        indent_single_line(cfg),
    ensures
        ({
            let once = AstStr { repr: spec_indent_repr(cfg, depth, cur, after_newline), input: cur.input };
            spec_indent_repr(cfg, depth, once, after_newline) == once.repr
        }),
{
    let once = AstStr { repr: spec_indent_repr(cfg, depth, cur, after_newline), input: cur.input };
    if cur.input is None {
        let k = once.repr->Indentation_newlines;
        lemma_count_constant(k as nat, 0x0a, 0x0a);
        lemma_count_repeat(string_bytes(cfg.indent), depth as nat, 0x0a);
        lemma_count_byte_concat(
            Seq::new(k as nat, |_i: int| 0x0au8),
            repeat(string_bytes(cfg.indent), depth as nat),
            0x0a,
        );
        assert(depth as nat * 0 == 0) by (nonlinear_arith);
        assert(input_newlines(once) == k);
    }
}

/// How many empty lines `n` newlines make: after a newline each newline ends
/// an empty line; otherwise the first one ends the current line.
pub open spec fn empty_lines(n: nat, after_newline: bool) -> int {
    if after_newline { n as int } else { n - 1 }
}

/// Whether whitespace that had `m` newlines and now has `n` keeps the
/// configured number of empty lines: the result is within the minimum and
/// the maximum; a count already within them is kept; one below or above
/// them is brought to the nearest bound.
pub open spec fn empty_lines_limited(m: nat, n: nat, after_newline: bool, cfg: Config) -> bool {
    let was = empty_lines(m, after_newline);
    let now = empty_lines(n, after_newline);
    &&& cfg.min_empty_lines <= now <= cfg.max_empty_lines
    &&& (cfg.min_empty_lines <= was <= cfg.max_empty_lines ==> n == m)
    &&& (was < cfg.min_empty_lines ==> now == cfg.min_empty_lines)
    &&& (was > cfg.max_empty_lines ==> now == cfg.max_empty_lines)
}

/// The text of indentation has the newlines its repr counts.
proof fn lemma_indent_text_newlines(cfg: Config, depth: usize, cur: AstStr, after_newline: bool, input: Option<Vec<u8>>)
    requires
        config_ok(cfg),
        indent_single_line(cfg),
    ensures
        ({
            let out = AstStr { repr: spec_indent_repr(cfg, depth, cur, after_newline), input };
            empty_lines_limited(input_newlines(cur), newlines(out.text()), after_newline, cfg)
        }),
{
    let repr = spec_indent_repr(cfg, depth, cur, after_newline);
    let k = repr->Indentation_newlines;
    lemma_count_constant(k as nat, 0x0a, 0x0a);
    lemma_count_repeat(string_bytes(cfg.indent), depth as nat, 0x0a);
    lemma_count_byte_concat(
        Seq::new(k as nat, |_i: int| 0x0au8),
        repeat(string_bytes(cfg.indent), depth as nat),
        0x0a,
    );
    assert(depth as nat * 0 == 0) by (nonlinear_arith);
}

/// Formatting as indentation keeps every piece of whitespace within the
/// configured empty lines: the first piece (unless it is removed) counted
/// from the line before it, each piece after a line comment counted from
/// the comment's newline, and each piece after a block comment counted from
/// the comment's line. A count already within the bounds is kept, and one
/// outside them is brought to the nearest bound.
pub proof fn lemma_formatted_empty_lines(
    before: Whitespace,
    after: Whitespace,
    use_prev: bool,
    remove_if_pure: bool,
    cfg: Config,
    depth: usize,
    after_newline: bool,
)
    requires
        config_ok(cfg),
        indent_single_line(cfg),
        is_formatted(before, after, WhitespaceFormatKind::Indent { use_prev, remove_if_pure }, cfg, depth, after_newline),
    ensures
        !(remove_if_pure && before.0.rest@.len() == 0) ==> empty_lines_limited(
            input_newlines(before.0.first.0),
            newlines(after.0.first.0.text()),
            after_newline,
            cfg,
        ),
        forall|i: int| 0 <= i < before.0.rest@.len() ==> empty_lines_limited(
            input_newlines(before.0.rest@[i].1.0),
            newlines((#[trigger] after.0.rest@[i]).1.0.text()),
            before.0.rest@[i].0 is Line,
            cfg,
        ),
{
    let n = before.0.rest@.len();
    if !(remove_if_pure && n == 0) {
        lemma_indent_text_newlines(cfg, piece_depth(depth, use_prev && n == 0), before.0.first.0, after_newline, before.0.first.0.input);
    }
    assert forall|i: int| 0 <= i < n implies empty_lines_limited(
        input_newlines(before.0.rest@[i].1.0),
        newlines((#[trigger] after.0.rest@[i]).1.0.text()),
        before.0.rest@[i].0 is Line,
        cfg,
    ) by {
        let (c, p) = before.0.rest@[i];
        lemma_indent_text_newlines(cfg, piece_depth(depth, use_prev && i == n - 1), p.0, c is Line, p.0.input);
    }
}

/// A comment formatted once stays as it is.
proof fn lemma_formatted_comment_stable(c: Comment, is_last: bool)
    ensures
        spec_formatted_comment(spec_formatted_comment(c, is_last), is_last) == spec_formatted_comment(c, is_last),
{
    match c {
        Comment::Line(l) => if is_last && newlines(l.0.text()) == 0 {
            let joined = spec_formatted_comment(c, is_last)->Line_0.0;
            let nl = AstStr { repr: AstStrRepr::Char('\n'), input: None };
            let body = AstStr { repr: l.0.repr, input: None };
            assert(nl.text() == encode_scalar('\n' as u32));
            assert(body.text() == l.0.text());
            assert(joined.text() == body.text() + nl.text());
            lemma_count_byte_concat(l.0.text(), encode_scalar('\n' as u32), 0x0a);
            lemma_count_char_newline('\n');
            assert(newlines(joined.text()) == 1);
        },
        Comment::Block(_) => {},
    }
}

/// Formatting whitespace a second time, the same way, changes nothing:
/// formatted whitespace stays formatted.
pub proof fn lemma_format_idempotent(
    ws: Whitespace,
    once: Whitespace,
    twice: Whitespace,
    kind: WhitespaceFormatKind,
    cfg: Config,
    depth: usize,
    after_newline: bool,
)
    requires
        config_ok(cfg),
        indent_single_line(cfg),
        is_formatted(ws, once, kind, cfg, depth, after_newline),
        is_formatted(once, twice, kind, cfg, depth, after_newline),
    ensures
        twice.0.first.0 == once.0.first.0,
        twice.0.rest@ == once.0.rest@,
        twice.text() == once.text(),
{
    let n = ws.0.rest@.len();
    let is_last = n == 0;
    match kind {
        WhitespaceFormatKind::Indent { use_prev, remove_if_pure } => {
            if !(remove_if_pure && is_last) {
                lemma_indent_repr_stable(cfg, piece_depth(depth, use_prev && is_last), ws.0.first.0, after_newline);
            }
        },
        _ => {},
    }
    assert forall|i: int| 0 <= i < n implies #[trigger] twice.0.rest@[i] == once.0.rest@[i] by {
        let (c, p) = ws.0.rest@[i];
        let last = i == n - 1;
        lemma_formatted_comment_stable(c, last);
        let c1 = spec_formatted_comment(c, last);
        assert(c1 is Line == c is Line);
        match kind {
            WhitespaceFormatKind::Indent { use_prev, .. } => {
                lemma_indent_repr_stable(cfg, piece_depth(depth, use_prev && last), p.0, c is Line);
            },
            _ => {},
        }
    }
    assert(twice.0.rest@ =~= once.0.rest@);
}

/// Formats whitespace with `kind`.
///
/// The first pure whitespace is replaced by the prefix string; the pure
/// whitespace after each comment by the string after a newline (after line
/// comments) or the normal string (after block comments); a last line comment
/// without a newline gets one. A pending after-newline tag is consumed.
pub fn format(ws: &mut Whitespace, ctx: &mut Context, kind: WhitespaceFormatKind)
    requires
        config_ok(*old(ctx).spec_config()),
        ws_fits(*old(ws)),
    ensures
        is_formatted(
            *old(ws),
            *final(ws),
            kind,
            *old(ctx).spec_config(),
            old(ctx).depth(),
            old(ctx).spec_tags().after_newline,
        ),
        final(ctx).spec_tags() == old(ctx).spec_tags().spec_set(FormatTag::AfterNewline, false),
        *final(ctx).spec_config() == *old(ctx).spec_config(),
        final(ctx).depth() == old(ctx).depth(),
        final(ctx).spec_input() == old(ctx).spec_input(),
{
    let after_newline = ctx.take_tag(FormatTag::AfterNewline);
    let depth = ctx.indent();
    let cfg = ctx.config();
    let n = ws.0.rest.len();

    let prefix_str = kind.prefix_str(cfg, depth, &ws.0.first.0, n == 0, after_newline);
    ws.0.first.0.replace(prefix_str);

    let ghost old_rest = ws.0.rest@;
    let mut rest: Vec<(Comment, PureWhitespace)> = Vec::new();
    std::mem::swap(&mut rest, &mut ws.0.rest);
    let mut rev: Vec<(Comment, PureWhitespace)> = Vec::new();
    while rest.len() > 0
        invariant
            rest@.len() + rev@.len() == n,
            n == old_rest.len(),
            forall|k: int| 0 <= k < rest@.len() ==> rest@[k] == old_rest[k],
            forall|k: int| 0 <= k < rev@.len() ==> rev@[k] == old_rest[n - 1 - k],
        decreases rest@.len(),
    {
        let item = rest.pop().unwrap();
        rev.push(item);
    }
    let mut out: Vec<(Comment, PureWhitespace)> = Vec::new();
    let mut i: usize = 0;
    while i < n
        invariant
            i <= n,
            n == old_rest.len(),
            rev@.len() == n - i,
            out@.len() == i,
            config_ok(*cfg),
            forall|k: int| 0 <= k < rev@.len() ==> rev@[k] == old_rest[n - 1 - k],
            forall|k: int| 0 <= k < n ==> {
                &&& str_fits((#[trigger] old_rest[k]).0.str())
                &&& str_fits(old_rest[k].1.0)
            },
            forall|k: int| 0 <= k < i ==> {
                let (c, p) = #[trigger] old_rest[k];
                &&& out@[k].0 == spec_formatted_comment(c, k == n - 1)
                &&& out@[k].1.0 == spec_formatted_pure(kind, *cfg, depth, c, p.0, k == n - 1)
            },
        decreases n - i,
    {
        let (mut comment, mut pure) = rev.pop().unwrap();
        proof {
            assert((comment, pure) == old_rest[i as int]);
        }
        let is_last = i + 1 == n;
        let ws_str = if comment.is_line() {
            kind.after_newline_str(cfg, depth, &pure.0, is_last)
        } else {
            kind.normal_str(cfg, depth, &pure.0, is_last)
        };
        pure.0.replace(ws_str);
        if is_last {
            if let Comment::Line(line) = &mut comment {
                if !line.0.has_newlines() {
                    line.0.push_newline();
                }
            }
        }
        out.push((comment, pure));
        i = i + 1;
    }
    ws.0.rest = out;
}

} // verus!
