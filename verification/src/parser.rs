//! The parser: a position in the source bytes, with tags.
//!
//! The parser holds the whole input and the current byte position. Parsable
//! types advance it; [`Parser::try_parse`] and [`Parser::peek`] put it back
//! where they found it unless parsing failed fatally.
use vstd::prelude::*;
use std::marker::PhantomData;
use vstd::string::StringSliceAdditionalSpecFns;
use vstd::std_specs::convert::FromSpec;
use vstd::string::StringExecFns;
use crate::ast_str::AstStr;
use crate::text::{has_at, bytes_have_at, count_byte, rfind_byte, find_byte, count_byte_in, rfind_byte_in, find_byte_in, ws_width, ws_width_at};

verus! {

/// Parser tag
#[derive(Clone, Copy, Debug, PartialEq, Eq, Structural)]
pub enum ParserTag {
    SkipAssignmentExpression,
    SkipBlockExpression,
    SkipCompoundAssignmentExpression,
    SkipDelimiters,
    SkipExpressionWithoutBlock,
    SkipLazyBooleanExpression,
    SkipOptionalTrailingBlockExpression,
    SkipRangeExpr,
    SkipRangeFromExpr,
    SkipRangeInclusiveExpr,
    SkipStructExpression,
    SkipTokenCrate,
    SkipTokenDollar,
    SkipTokenPlus,
    SkipTokenQuestion,
    SkipTokenStar,
    SkipWhitespace,
}

/// Parser location (0-indexed).
///
/// Displayed 1-indexed, as `{line}:{column}`.
#[derive(Clone, Copy, Debug, PartialEq, Eq, Structural)]
pub struct ParserLoc {
    pub line: usize,
    pub column: usize,
}

/// The character of decimal digit `d`.
pub open spec fn digit_char(d: nat) -> char {
    if d == 0 {
        '0'
    } else if d == 1 {
        '1'
    } else if d == 2 {
        '2'
    } else if d == 3 {
        '3'
    } else if d == 4 {
        '4'
    } else if d == 5 {
        '5'
    } else if d == 6 {
        '6'
    } else if d == 7 {
        '7'
    } else if d == 8 {
        '8'
    } else {
        '9'
    }
}

/// The decimal digits of `n`.
pub open spec fn decimal(n: nat) -> Seq<char>
    decreases n,
{
    if n < 10 {
        seq![digit_char(n)]
    } else {
        decimal(n / 10).push(digit_char(n % 10))
    }
}

/// The string of decimal digit `d`.
fn digit_str(d: u8) -> (r: &'static str)
    requires
        d < 10,
    ensures
        r@ == seq![digit_char(d as nat)],
{
    match d {
        0 => {
            proof {
                reveal_strlit("0");
            }
            "0"
        },
        1 => {
            proof {
                reveal_strlit("1");
            }
            "1"
        },
        2 => {
            proof {
                reveal_strlit("2");
            }
            "2"
        },
        3 => {
            proof {
                reveal_strlit("3");
            }
            "3"
        },
        4 => {
            proof {
                reveal_strlit("4");
            }
            "4"
        },
        5 => {
            proof {
                reveal_strlit("5");
            }
            "5"
        },
        6 => {
            proof {
                reveal_strlit("6");
            }
            "6"
        },
        7 => {
            proof {
                reveal_strlit("7");
            }
            "7"
        },
        8 => {
            proof {
                reveal_strlit("8");
            }
            "8"
        },
        _ => {
            proof {
                reveal_strlit("9");
            }
            "9"
        },
    }
}

/// Appends the decimal digits of `n` to `s`.
fn push_decimal(s: &mut String, n: u128)
    ensures
        final(s)@ == old(s)@ + decimal(n as nat),
    decreases n,
{
    if n >= 10 {
        push_decimal(s, n / 10);
    }
    s.append(digit_str((n % 10) as u8));
    proof {
        if n >= 10 {
            assert(decimal(n as nat) == decimal((n / 10) as nat).push(digit_char((n % 10) as nat)));
        }
    }
}

impl ParserLoc {
    /// Returns this location 1-indexed, as `{line}:{column}`
    pub fn to_string(&self) -> (r: String)
        ensures
            r@ == decimal((self.line + 1) as nat) + seq![':'] + decimal((self.column + 1) as nat),
    {
        let mut s = String::new();
        push_decimal(&mut s, self.line as u128 + 1);
        proof {
            reveal_strlit(":");
        }
        s.append(":");
        push_decimal(&mut s, self.column as u128 + 1);
        s
    }
}

/// A range of input positions
#[derive(Clone, Copy, Debug, PartialEq, Eq, Structural)]
pub struct AstRange {
    pub start: usize,
    pub end: usize,
}

/// Peek state: where the parser would be after accepting a peeked value
#[derive(Debug)]
pub struct PeekState {
    cur_pos: usize,
}

impl PeekState {
    /// The position a peek ended at.
    pub closed spec fn pos(&self) -> usize {
        self.cur_pos
    }

    /// Returns if this peek state is further ahead than another
    pub fn ahead_of(&self, other: &Self) -> (r: bool)
        ensures
            r == (self.pos() > other.pos()),
    {
        self.cur_pos > other.cur_pos
    }

    /// Returns if this peek state is further ahead or equal to another
    pub fn ahead_of_or_equal(&self, other: &Self) -> (r: bool)
        ensures
            r == (self.pos() >= other.pos()),
    {
        self.cur_pos >= other.cur_pos
    }
}

/// The tags in effect at position `pos`: the run at the end of `tags` that
/// was pushed at `pos`, most recent first.
pub open spec fn active_tags(tags: Seq<(usize, ParserTag)>, pos: usize) -> Seq<ParserTag>
    decreases tags.len(),
{
    if tags.len() == 0 || tags.last().0 != pos {
        Seq::empty()
    } else {
        seq![tags.last().1] + active_tags(tags.drop_last(), pos)
    }
}

/// The tag stack `stack` with `tags` pushed, in order, at position `pos`.
pub open spec fn pushed_at(stack: Seq<(usize, ParserTag)>, pos: usize, tags: Seq<ParserTag>) -> Seq<(usize, ParserTag)> {
    stack + tags.map_values(|t: ParserTag| (pos, t))
}

/// Tags pushed at a position are in effect there, most recent first, in
/// front of the tags that were already in effect; cutting the stack back to
/// its earlier length removes exactly them and keeps the older ones.
/// ([`Parser::push_tags`] and [`Parser::restore_tags`] state their effect on
/// the stack in these terms.)
pub proof fn lemma_scoped_tags(stack: Seq<(usize, ParserTag)>, pos: usize, tags: Seq<ParserTag>)
    ensures
        active_tags(pushed_at(stack, pos, tags), pos) == tags.reverse() + active_tags(stack, pos),
        forall|i: int| 0 <= i < tags.len() ==> #[trigger] active_tags(pushed_at(stack, pos, tags), pos).contains(tags[i]),
        pushed_at(stack, pos, tags).take(stack.len() as int) == stack,
    decreases tags.len(),
{
    let pushed = pushed_at(stack, pos, tags);
    assert(pushed.take(stack.len() as int) =~= stack);
    if tags.len() == 0 {
        assert(pushed =~= stack);
        assert(tags.reverse() =~= Seq::<ParserTag>::empty());
        assert(tags.reverse() + active_tags(stack, pos) =~= active_tags(stack, pos));
    } else {
        let init = tags.drop_last();
        lemma_scoped_tags(stack, pos, init);
        assert(pushed.drop_last() =~= pushed_at(stack, pos, init));
        assert(pushed.last() == (pos, tags.last()));
        assert(tags.reverse() =~= seq![tags.last()] + init.reverse());
        assert(active_tags(pushed, pos) =~= tags.reverse() + active_tags(stack, pos));
    }
    assert forall|i: int| 0 <= i < tags.len() implies #[trigger] active_tags(pushed, pos).contains(tags[i]) by {
        assert(active_tags(pushed, pos)[tags.len() - 1 - i] == tags[i]);
    }
}

/// The width of the whitespace character that ends at `e`, or 0 if the
/// character ending there is not whitespace.
pub open spec fn ws_width_before(s: Seq<u8>, e: int) -> nat {
    if e >= 1 && ws_width(s, e - 1) == 1 {
        1
    } else if e >= 2 && ws_width(s, e - 2) == 2 {
        2
    } else if e >= 3 && ws_width(s, e - 3) == 3 {
        3
    } else {
        0
    }
}

/// The position before the whitespace characters that end at `e`.
pub open spec fn rskip_ws(s: Seq<u8>, e: int) -> int
    decreases e,
{
    if 0 < e <= s.len() && ws_width_before(s, e) > 0 {
        rskip_ws(s, e - ws_width_before(s, e))
    } else {
        e
    }
}

/// The start of the character that ends at `e`: the last byte before `e`
/// that is not a UTF-8 continuation byte.
pub open spec fn char_start_before(s: Seq<u8>, e: int) -> int
    decreases e,
{
    if e <= 0 || e > s.len() {
        0
    } else if 0x80 <= s[e - 1] < 0xc0 {
        char_start_before(s, e - 1)
    } else {
        e - 1
    }
}

/// Where reversing the whitespace before `pos` lands: one byte past the
/// start of the last non-whitespace character, or 0 if there is none.
pub open spec fn spec_reverse_whitespace(s: Seq<u8>, pos: int) -> int {
    let e = rskip_ws(s, pos);
    if e == 0 { 0 } else { char_start_before(s, e) + 1 }
}

/// The 0-indexed line and column of position `pos` in `s`.
pub open spec fn spec_loc(s: Seq<u8>, pos: int) -> ParserLoc {
    ParserLoc {
        line: count_byte(s.take(pos), 0x0a) as usize,
        column: match rfind_byte(s, pos, 0x0a) {
            Some(nl) => (pos - nl - 1) as usize,
            None => pos as usize,
        },
    }
}

/// Parser
pub struct Parser<'a> {
    input: &'a str,
    bytes: &'a [u8],
    cur_pos: usize,
    tags: Vec<(usize, ParserTag)>,
}

impl<'a> Parser<'a> {
    /// Well-formedness: the position is within the input, and the bytes are
    /// those of the input string.
    pub closed spec fn wf(&self) -> bool {
        &&& self.cur_pos <= self.bytes@.len()
        &&& self.bytes@ == self.input.spec_bytes()
    }

    /// The input bytes.
    pub closed spec fn spec_input(&self) -> Seq<u8> {
        self.bytes@
    }

    /// The current position.
    pub closed spec fn pos(&self) -> usize {
        self.cur_pos
    }

    /// The tag stack, with the position each tag was pushed at.
    pub closed spec fn tag_stack(&self) -> Seq<(usize, ParserTag)> {
        self.tags@
    }

    /// Creates a new parser
    pub fn new(input: &'a str) -> (r: Self)
        ensures
            r.spec_input() == input.spec_bytes(),
            r.pos() == 0,
            r.tag_stack().len() == 0,
            r.wf(),
    {
        Parser { input, bytes: input.as_bytes(), cur_pos: 0, tags: Vec::new() }
    }

    /// Returns the whole input of the parser
    pub fn input(&self) -> (r: &'a str)
        requires
            self.wf(),
        ensures
            r.spec_bytes() == self.spec_input(),
    {
        self.input
    }

    /// Returns the whole input of the parser, as bytes
    pub fn input_bytes(&self) -> (r: &'a [u8])
        requires
            self.wf(),
        ensures
            r@ == self.spec_input(),
    {
        self.bytes
    }

    /// Returns the remaining input for the parser
    pub fn remaining(&self) -> (r: &'a [u8])
        requires
            self.wf(),
        ensures
            r@ == self.spec_input().skip(self.pos() as int),
    {
        vstd::slice::slice_subrange(self.bytes, self.cur_pos, self.bytes.len())
    }

    /// Returns the current position of the parser
    pub fn cur_pos(&self) -> (r: usize)
        requires
            self.wf(),
        ensures
            r == self.pos(),
            r <= self.spec_input().len(),
    {
        self.cur_pos
    }

    /// Sets the position of this parser
    pub fn set_pos(&mut self, pos: usize)
        requires
            old(self).wf(),
            pos <= old(self).spec_input().len(),
        ensures
            final(self).wf(),
            final(self).pos() == pos,
            final(self).spec_input() == old(self).spec_input(),
            final(self).tag_stack() == old(self).tag_stack(),
    {
        self.cur_pos = pos;
    }

    /// Reverses over the whitespace characters before the current position,
    /// to one byte past the start of the last non-whitespace character.
    pub fn reverse_whitespace(&mut self)
        requires
            old(self).wf(),
        ensures
            final(self).wf(),
            final(self).pos() == spec_reverse_whitespace(old(self).spec_input(), old(self).pos() as int),
            final(self).spec_input() == old(self).spec_input(),
            final(self).tag_stack() == old(self).tag_stack(),
    {
        let s = self.bytes;
        let mut e = self.cur_pos;
        loop
            invariant
                e <= s@.len(),
                rskip_ws(s@, e as int) == rskip_ws(s@, self.cur_pos as int),
            ensures
                e as int == rskip_ws(s@, self.cur_pos as int),
            decreases e,
        {
            let w = if e >= 1 && ws_width_at(s, e - 1) == 1 {
                1
            } else if e >= 2 && ws_width_at(s, e - 2) == 2 {
                2
            } else if e >= 3 && ws_width_at(s, e - 3) == 3 {
                3
            } else {
                0
            };
            assert(w == ws_width_before(s@, e as int));
            if e == 0 || w == 0 {
                break;
            }
            e = e - w;
        }
        if e == 0 {
            self.cur_pos = 0;
            return;
        }
        let mut j = e;
        loop
            invariant
                0 < e <= s@.len(),
                0 < j <= e,
                char_start_before(s@, j as int) == char_start_before(s@, e as int),
            ensures
                j >= 1,
                j - 1 == char_start_before(s@, e as int),
            decreases j,
        {
            if j > 1 && 0x80 <= s[j - 1] && s[j - 1] < 0xc0 {
                j = j - 1;
            } else {
                proof {
                    if j == 1 {
                        assert(char_start_before(s@, 0) == 0);
                    }
                    assert(char_start_before(s@, j as int) == j - 1);
                }
                break;
            }
        }
        self.cur_pos = j;
    }

    /// Reverses to the start of the current line
    pub fn reverse_line(&mut self)
        requires
            old(self).wf(),
        ensures
            final(self).wf(),
            final(self).pos() == match rfind_byte(old(self).spec_input(), old(self).pos() as int, 0x0a) {
                Some(nl) => (nl + 1) as usize,
                None => 0usize,
            },
            final(self).spec_input() == old(self).spec_input(),
            final(self).tag_stack() == old(self).tag_stack(),
    {
        let pos = match rfind_byte_in(self.bytes, self.cur_pos, 0x0a) {
            Some(idx) => idx + 1,
            None => 0,
        };
        self.cur_pos = pos;
    }

    /// Returns the bounds of the current line of the parser, not including
    /// its newline.
    pub fn cur_line_range(&self) -> (r: AstRange)
        requires
            self.wf(),
        ensures
            r.start == match rfind_byte(self.spec_input(), self.pos() as int, 0x0a) {
                Some(nl) => nl + 1,
                None => 0,
            },
            r.end == match find_byte(self.spec_input(), self.pos() as int, 0x0a) {
                Some(nl) => nl,
                None => self.spec_input().len() as int,
            },
            r.start <= self.pos() <= r.end <= self.spec_input().len(),
    {
        let start = match rfind_byte_in(self.bytes, self.cur_pos, 0x0a) {
            Some(idx) => idx + 1,
            None => 0,
        };
        let end = match find_byte_in(self.bytes, self.cur_pos, 0x0a) {
            Some(idx) => idx,
            None => self.bytes.len(),
        };
        AstRange { start, end }
    }

    /// Returns the current line of the parser, not including the end
    pub fn cur_line(&self) -> (r: &'a [u8])
        requires
            self.wf(),
        ensures
            ({
                let range = self.spec_cur_line_range();
                r@ == self.spec_input().subrange(range.start as int, range.end as int)
            }),
    {
        let range = self.cur_line_range();
        vstd::slice::slice_subrange(self.bytes, range.start, range.end)
    }

    /// The bounds of the current line.
    pub open spec fn spec_cur_line_range(&self) -> AstRange {
        AstRange {
            start: match rfind_byte(self.spec_input(), self.pos() as int, 0x0a) {
                Some(nl) => (nl + 1) as usize,
                None => 0,
            },
            end: match find_byte(self.spec_input(), self.pos() as int, 0x0a) {
                Some(nl) => nl as usize,
                None => self.spec_input().len() as usize,
            },
        }
    }

    /// Gets the location (0-indexed) of the parser at a position
    pub fn loc(&self, pos: usize) -> (r: ParserLoc)
        requires
            self.wf(),
            pos <= self.spec_input().len(),
        ensures
            r == spec_loc(self.spec_input(), pos as int),
    {
        let line = count_byte_in(self.bytes, pos, 0x0a);
        let column = match rfind_byte_in(self.bytes, pos, 0x0a) {
            Some(newline_pos) => pos - newline_pos - 1,
            None => pos,
        };
        ParserLoc { line, column }
    }

    /// Gets the current location (0-indexed) of the parser
    pub fn cur_loc(&self) -> (r: ParserLoc)
        requires
            self.wf(),
        ensures
            r == spec_loc(self.spec_input(), self.pos() as int),
    {
        self.loc(self.cur_pos)
    }

    /// Returns if the parser is finished
    pub fn is_finished(&self) -> (r: bool)
        requires
            self.wf(),
        ensures
            r == (self.pos() == self.spec_input().len()),
    {
        self.cur_pos == self.bytes.len()
    }

    /// Advances the parser to `pos`, returning the range passed over.
    pub fn advance_to(&mut self, pos: usize) -> (r: AstRange)
        requires
            old(self).wf(),
            old(self).pos() <= pos <= old(self).spec_input().len(),
        ensures
            final(self).wf(),
            r == (AstRange { start: old(self).pos(), end: pos }),
            final(self).pos() == pos,
            final(self).spec_input() == old(self).spec_input(),
            final(self).tag_stack() == old(self).tag_stack(),
    {
        let start = self.cur_pos;
        self.cur_pos = pos;
        AstRange { start, end: pos }
    }

    /// Advances the parser to `pos`, returning the string passed over.
    pub fn take_str(&mut self, pos: usize) -> (r: AstStr)
        requires
            old(self).wf(),
            old(self).pos() <= pos <= old(self).spec_input().len(),
        ensures
            final(self).wf(),
            r.text() == old(self).spec_input().subrange(old(self).pos() as int, pos as int),
            r.input matches Some(b) && b@ == r.text(),
            final(self).pos() == pos,
            final(self).spec_input() == old(self).spec_input(),
            final(self).tag_stack() == old(self).tag_stack(),
    {
        let bytes = vstd::slice::slice_subrange(self.bytes, self.cur_pos, pos);
        self.cur_pos = pos;
        AstStr::new_input(vstd::slice::slice_to_vec(bytes))
    }

    /// Strips the bytes `prefix` from the parser, returning the string
    /// passed over; without them, nothing changes.
    pub fn strip_prefix(&mut self, prefix: &[u8]) -> (r: Option<AstStr>)
        requires
            old(self).wf(),
        ensures
            final(self).wf(),
            final(self).spec_input() == old(self).spec_input(),
            final(self).tag_stack() == old(self).tag_stack(),
            has_at(old(self).spec_input(), old(self).pos() as int, prefix@) ==> {
                &&& r matches Some(t) && (t.text() == prefix@ && (t.input matches Some(b) && b@ == prefix@))
                &&& final(self).pos() == old(self).pos() + prefix@.len()
            },
            !has_at(old(self).spec_input(), old(self).pos() as int, prefix@) ==> r is None && final(self).pos() == old(self).pos(),
    {
        let ghost start = self.pos();
        let ghost input = self.spec_input();
        let plen = prefix.len();
        let strip = |rem: &'a [u8]| -> (out: (usize, Result<(), ()>))
            ensures
                out == (if has_at(rem@, 0, prefix@) { (prefix@.len() as usize, Ok::<(), ()>(())) } else { (0usize, Err::<(), ()>(())) }),
        {
            if bytes_have_at(rem, 0, prefix) {
                (prefix.len(), Ok(()))
            } else {
                (0, Err(()))
            }
        };
        let res = self.try_update_with(strip);
        proof {
            let (rem, out) = choose|rem: &'a [u8], out: (usize, Result<(), ()>)| {
                &&& old(self).is_remaining(rem)
                &&& call_ensures(strip, (rem,), out)
                &&& self.pos() == start + out.0
                &&& match out.1 {
                    Ok(_) => res matches Ok(t) && t.text() == input.subrange(start as int, self.pos() as int)
                        && (t.input matches Some(b) && b@ == t.text()),
                    Err(e) => res == Err::<AstStr, ()>(e),
                }
            };
            assert(rem@ == input.skip(start as int));
            assert(plen == prefix@.len());
            if has_at(input, start as int, prefix@) {
                assert(rem@.subrange(0, prefix@.len() as int) =~= input.subrange(start as int, start + prefix@.len()));
            } else if has_at(rem@, 0, prefix@) {
                assert(rem@.subrange(0, prefix@.len() as int) =~= input.subrange(start as int, start + prefix@.len()));
            }
        }
        match res {
            Ok(t) => Some(t),
            Err(()) => None,
        }
    }

    /// Returns all current tags, most recent first
    pub fn tags(&self) -> (r: Vec<ParserTag>)
        requires
            self.wf(),
        ensures
            r@ == active_tags(self.tag_stack(), self.pos()),
    {
        let mut out: Vec<ParserTag> = Vec::new();
        let mut i = self.tags.len();
        proof {
            assert(self.tags@.take(i as int) =~= self.tags@);
            assert(out@ + active_tags(self.tags@, self.cur_pos) =~= active_tags(self.tags@, self.cur_pos));
        }
        while i > 0 && self.tags[i - 1].0 == self.cur_pos
            invariant
                i <= self.tags@.len(),
                active_tags(self.tags@, self.cur_pos) == out@ + active_tags(self.tags@.take(i as int), self.cur_pos),
            decreases i,
        {
            proof {
                assert(self.tags@.take(i as int).drop_last() =~= self.tags@.take(i - 1));
                assert(self.tags@.take(i as int).last() == self.tags@[i - 1]);
            }
            out.push(self.tags[i - 1].1);
            proof {
                assert(active_tags(self.tags@, self.cur_pos) =~= out@ + active_tags(self.tags@.take(i - 1), self.cur_pos));
            }
            i = i - 1;
        }
        proof {
            if i > 0 {
                assert(self.tags@.take(i as int).last() == self.tags@[i - 1]);
            }
            assert(active_tags(self.tags@.take(i as int), self.cur_pos) =~= Seq::<ParserTag>::empty());
            assert(self.tags@.take(self.tags@.len() as int) =~= self.tags@);
        }
        out
    }

    /// Whether a tag is in effect.
    pub open spec fn has_tag_spec(&self, tag: ParserTag) -> bool {
        active_tags(self.tag_stack(), self.pos()).contains(tag)
    }

    /// Returns if this parser has a tag
    pub fn has_tag(&self, tag: ParserTag) -> (r: bool)
        requires
            self.wf(),
        ensures
            r == active_tags(self.tag_stack(), self.pos()).contains(tag),
    {
        let tags = self.tags();
        let mut i: usize = 0;
        while i < tags.len()
            invariant
                i <= tags@.len(),
                tags@ == active_tags(self.tag_stack(), self.pos()),
                forall|k: int| 0 <= k < i ==> tags@[k] != tag,
            decreases tags@.len() - i,
        {
            if tags[i] == tag {
                proof {
                    assert(tags@[i as int] == tag);
                }
                return true;
            }
            i = i + 1;
        }
        proof {
            assert(!tags@.contains(tag));
        }
        false
    }

    /// Adds tags at the current position, returning how many tags there
    /// were before, for [`Self::restore_tags`].
    pub fn push_tags(&mut self, tags: &[ParserTag]) -> (r: usize)
        requires
            old(self).wf(),
        ensures
            final(self).wf(),
            r == old(self).tag_stack().len(),
            final(self).tag_stack() == pushed_at(old(self).tag_stack(), old(self).pos(), tags@),
            final(self).pos() == old(self).pos(),
            final(self).spec_input() == old(self).spec_input(),
    {
        let len = self.tags.len();
        let mut i: usize = 0;
        while i < tags.len()
            invariant
                i <= tags@.len(),
                len == old(self).tags@.len(),
                self.cur_pos == old(self).cur_pos,
                self.bytes == old(self).bytes,
                self.input == old(self).input,
                self.tags@ == old(self).tags@ + tags@.take(i as int).map_values(|t: ParserTag| (old(self).cur_pos, t)),
            decreases tags@.len() - i,
        {
            let pos = self.cur_pos;
            self.tags.push((pos, tags[i]));
            proof {
                assert(tags@.take(i + 1).map_values(|t: ParserTag| (old(self).cur_pos, t)) =~= tags@.take(i as int).map_values(|t: ParserTag| (old(self).cur_pos, t)).push((old(self).cur_pos, tags@[i as int])));
            }
            i = i + 1;
        }
        proof {
            assert(tags@.take(tags@.len() as int) =~= tags@);
        }
        len
    }

    /// Removes all tags pushed after the stack had `len` tags.
    pub fn restore_tags(&mut self, len: usize)
        requires
            old(self).wf(),
        ensures
            final(self).wf(),
            final(self).tag_stack() == old(self).tag_stack().take(
                if len <= old(self).tag_stack().len() { len as int } else { old(self).tag_stack().len() as int },
            ),
            final(self).pos() == old(self).pos(),
            final(self).spec_input() == old(self).spec_input(),
    {
        self.tags.truncate(len);
        proof {
            assert(len > old(self).tags@.len() ==> old(self).tags@.take(old(self).tags@.len() as int) =~= old(self).tags@);
        }
    }

    /// Removes all tags, returning them for [`Self::set_tags`].
    pub fn take_tags(&mut self) -> (r: Vec<(usize, ParserTag)>)
        requires
            old(self).wf(),
        ensures
            final(self).wf(),
            r@ == old(self).tag_stack(),
            final(self).tag_stack().len() == 0,
            final(self).pos() == old(self).pos(),
            final(self).spec_input() == old(self).spec_input(),
    {
        let mut tags = Vec::new();
        std::mem::swap(&mut tags, &mut self.tags);
        tags
    }

    /// Replaces all tags.
    pub fn set_tags(&mut self, tags: Vec<(usize, ParserTag)>)
        requires
            old(self).wf(),
        ensures
            final(self).wf(),
            final(self).tag_stack() == tags@,
            final(self).pos() == old(self).pos(),
            final(self).spec_input() == old(self).spec_input(),
    {
        self.tags = tags;
    }

    /// Accepts a peeked state.
    pub fn set_peeked(&mut self, peek_state: PeekState)
        requires
            old(self).wf(),
            peek_state.pos() <= old(self).spec_input().len(),
        ensures
            final(self).wf(),
            final(self).pos() == peek_state.pos(),
            final(self).spec_input() == old(self).spec_input(),
            final(self).tag_stack() == old(self).tag_stack(),
    {
        self.set_pos(peek_state.cur_pos);
    }
}


/// Parse error
pub trait ParseError: Sized {
    /// Whether this error is fatal.
    spec fn spec_is_fatal(&self) -> bool;

    /// Returns whether this error is fatal
    fn is_fatal(&self) -> (r: bool)
        ensures
            r == self.spec_is_fatal(),
    ;

    /// The position at which this error occurred, if it has one.
    spec fn spec_pos(&self) -> Option<usize>;

    /// Returns the position at which this error occurred
    fn pos(&self) -> (r: Option<usize>)
        ensures
            r == self.spec_pos(),
    ;
}

/// The later of two optional positions.
pub open spec fn spec_max_pos(a: Option<usize>, b: Option<usize>) -> Option<usize> {
    match (a, b) {
        (Some(x), Some(y)) => Some(if x >= y { x } else { y }),
        (Some(x), None) => Some(x),
        (None, y) => y,
    }
}

/// Returns the later of two optional positions
pub fn max_pos(a: Option<usize>, b: Option<usize>) -> (r: Option<usize>)
    ensures
        r == spec_max_pos(a, b),
{
    match (a, b) {
        (Some(x), Some(y)) => Some(if x >= y { x } else { y }),
        (Some(x), None) => Some(x),
        (None, y) => y,
    }
}

/// Parsable types
pub trait Parse: Sized {
    /// Error type
    type Error: ParseError;

    /// Whether parsing from the parser `before` gives `r`, leaving the
    /// parser as `after`.
    spec fn parses(before: Parser<'_>, r: Result<Self, Self::Error>, after: Parser<'_>) -> bool;

    /// Parses this type, advancing the parser past it.
    fn parse_from(parser: &mut Parser<'_>) -> (r: Result<Self, Self::Error>)
        requires
            old(parser).wf(),
        ensures
            final(parser).wf(),
            final(parser).spec_input() == old(parser).spec_input(),
            final(parser).tag_stack() == old(parser).tag_stack(),
            old(parser).pos() <= final(parser).pos(),
            Self::parses(*old(parser), r, *final(parser)),
    ;
}

/// Whether two parsers are in the same state: the same input, position and
/// tags.
pub open spec fn same_state(a: Parser<'_>, b: Parser<'_>) -> bool {
    &&& a.spec_input() == b.spec_input()
    &&& a.pos() == b.pos()
    &&& a.tag_stack() == b.tag_stack()
}

/// Whether parsing a `T` from `before` gives `r`, leaving the parser as
/// `after`, with a failure wrapped with the range it was parsed over.
pub open spec fn parses_wrapped<T: Parse>(before: Parser<'_>, r: Result<T, ParserError<T::Error>>, after: Parser<'_>) -> bool {
    match r {
        Ok(v) => T::parses(before, Ok(v), after),
        Err(e) => T::parses(before, Err(*e.source), after)
            && e.range == (AstRange { start: before.pos(), end: after.pos() }),
    }
}

/// Whether peeking a `T` from `before` gives `r`, leaving the parser as
/// `after`: the parser is put back unless the failure is fatal, and a
/// parsed value comes with the state the parse reached.
pub open spec fn peeks<T: Parse>(before: Parser<'_>, r: Result<Result<(T, PeekState), ParserError<T::Error>>, ParserError<T::Error>>, after: Parser<'_>) -> bool {
    match r {
        Ok(Ok((v, state))) => same_state(before, after) && exists|mid: Parser<'_>|
            #[trigger] T::parses(before, Ok(v), mid) && state.pos() == mid.pos(),
        Ok(Err(e)) => !e.spec_is_fatal() && same_state(before, after) && exists|mid: Parser<'_>|
            #[trigger] T::parses(before, Err(*e.source), mid) && e.range == (AstRange { start: before.pos(), end: mid.pos() }),
        Err(e) => e.spec_is_fatal() && parses_wrapped::<T>(before, Err(e), after),
    }
}

/// Whether `values` were parsed one after another: value `i` took the parser
/// from `states[i]` forward to `states[i + 1]`.
pub open spec fn parses_each<'a, T: Parse>(states: Seq<Parser<'a>>, values: Seq<T>) -> bool {
    &&& states.len() == values.len() + 1
    &&& forall|i: int| 0 <= i < values.len() ==> #[trigger] T::parses(states[i], Ok(values[i]), states[i + 1])
        && states[i].pos() < states[i + 1].pos()
}

/// Whether repeated parsing stops at `last`, leaving the parser as `after`:
/// the next `T` fails without being fatal, or parses without moving.
pub open spec fn stops<T: Parse>(last: Parser<'_>, after: Parser<'_>) -> bool {
    ||| exists|e: ParserError<T::Error>| #[trigger] tries::<T>(last, Ok(Err(e)), after)
    ||| exists|v: T| #[trigger] T::parses(last, Ok(v), after) && after.pos() == last.pos()
}

/// Whether parsing values of `T` from `before`, for as long as they parse
/// and move the parser, gives `r`, leaving the parser as `after`.
pub open spec fn parses_vec<'a, T: Parse>(before: Parser<'a>, r: Result<Vec<T>, ParserError<T::Error>>, after: Parser<'_>) -> bool {
    match r {
        Ok(values) => values@.len() <= after.pos() - before.pos() && exists|states: Seq<Parser<'a>>| {
            &&& #[trigger] parses_each(states, values@)
            &&& states[0] == before
            &&& stops::<T>(states.last(), after)
        },
        Err(e) => exists|states: Seq<Parser<'a>>, values: Seq<T>| {
            &&& #[trigger] parses_each(states, values)
            &&& states[0] == before
            &&& tries::<T>(states.last(), Err(e), after)
        },
    }
}

/// Whether trying to parse a `T` from `before` gives `r`, leaving the
/// parser as `after`: a non-fatal failure is returned inside `Ok` with the
/// parser put back.
pub open spec fn tries<T: Parse>(before: Parser<'_>, r: Result<Result<T, ParserError<T::Error>>, ParserError<T::Error>>, after: Parser<'_>) -> bool {
    match r {
        Ok(Ok(v)) => T::parses(before, Ok(v), after),
        Ok(Err(e)) => !e.spec_is_fatal() && same_state(before, after) && exists|mid: Parser<'_>|
            #[trigger] T::parses(before, Err(*e.source), mid) && e.range == (AstRange { start: before.pos(), end: mid.pos() }),
        Err(e) => e.spec_is_fatal() && parses_wrapped::<T>(before, Err(e), after),
    }
}

/// An error that never happens
#[derive(Debug)]
pub struct NeverError;

impl ParseError for NeverError {
    open spec fn spec_is_fatal(&self) -> bool {
        false
    }

    fn is_fatal(&self) -> (r: bool) {
        false
    }

    open spec fn spec_pos(&self) -> Option<usize> {
        None
    }

    fn pos(&self) -> (r: Option<usize>) {
        None
    }
}

/// Parser error: the error of a type, with the range it was parsed over
pub struct ParserError<E> {
    pub source: Box<E>,
    pub range: AstRange,
}

impl<E: ParseError> ParseError for ParserError<E> {
    open spec fn spec_is_fatal(&self) -> bool {
        self.source.spec_is_fatal()
    }

    fn is_fatal(&self) -> (r: bool) {
        self.source.is_fatal()
    }

    /// The deeper of the source's position and the end of the range.
    open spec fn spec_pos(&self) -> Option<usize> {
        Some(match self.source.spec_pos() {
            Some(p) => if p >= self.range.end { p } else { self.range.end },
            None => self.range.end,
        })
    }

    fn pos(&self) -> (r: Option<usize>) {
        Some(match self.source.pos() {
            Some(p) => if p >= self.range.end { p } else { self.range.end },
            None => self.range.end,
        })
    }
}

impl<'a> Parser<'a> {
    /// Parses `T` from this parser
    pub fn parse<T: Parse>(&mut self) -> (r: Result<T, ParserError<T::Error>>)
        requires
            old(self).wf(),
        ensures
            final(self).wf(),
            final(self).spec_input() == old(self).spec_input(),
            final(self).tag_stack() == old(self).tag_stack(),
            old(self).pos() <= final(self).pos(),
            r matches Err(e) ==> e.range == (AstRange { start: old(self).pos(), end: final(self).pos() }),
            parses_wrapped(*old(self), r, *final(self)),
    {
        let start_pos = self.cur_pos();
        match T::parse_from(self) {
            Ok(value) => Ok(value),
            Err(source) => Err(ParserError {
                source: Box::new(source),
                range: AstRange { start: start_pos, end: self.cur_pos() },
            }),
        }
    }

    /// Tries to parse `T` from this parser.
    ///
    /// On a non-fatal error, the parser is left where it was.
    pub fn try_parse<T: Parse>(&mut self) -> (r: Result<Result<T, ParserError<T::Error>>, ParserError<T::Error>>)
        requires
            old(self).wf(),
        ensures
            final(self).wf(),
            final(self).spec_input() == old(self).spec_input(),
            final(self).tag_stack() == old(self).tag_stack(),
            old(self).pos() <= final(self).pos(),
            r matches Ok(Err(e)) ==> final(self).pos() == old(self).pos() && !e.spec_is_fatal(),
            r matches Err(e) ==> e.spec_is_fatal(),
            tries(*old(self), r, *final(self)),
    {
        let prev_pos = self.cur_pos();
        match self.parse::<T>() {
            Ok(value) => Ok(Ok(value)),
            Err(err) => if err.is_fatal() {
                Err(err)
            } else {
                let ghost mid = *self;
                self.set_pos(prev_pos);
                proof {
                    assert(T::parses(*old(self), Err(*err.source), mid));
                }
                Ok(Err(err))
            },
        }
    }

    /// Peeks a `T` from this parser.
    ///
    /// The parser is only advanced if a fatal error occurs.
    pub fn peek<T: Parse>(&mut self) -> (r: Result<Result<(T, PeekState), ParserError<T::Error>>, ParserError<T::Error>>)
        requires
            old(self).wf(),
        ensures
            final(self).wf(),
            final(self).spec_input() == old(self).spec_input(),
            final(self).tag_stack() == old(self).tag_stack(),
            old(self).pos() <= final(self).pos(),
            r is Ok ==> final(self).pos() == old(self).pos(),
            r matches Ok(Ok((_, state))) ==> old(self).pos() <= state.pos() <= final(self).spec_input().len(),
            r matches Ok(Err(e)) ==> !e.spec_is_fatal(),
            r matches Err(e) ==> e.spec_is_fatal(),
            peeks(*old(self), r, *final(self)),
    {
        let start_pos = self.cur_pos();
        let output = match self.parse::<T>() {
            Ok(value) => value,
            Err(err) => if err.is_fatal() {
                return Err(err);
            } else {
                let ghost mid = *self;
                self.set_pos(start_pos);
                let r = Ok(Err(err));
                proof {
                    assert(T::parses(*old(self), Err(*err.source), mid));
                    assert(peeks::<T>(*old(self), r, *self));
                }
                return r;
            },
        };
        let ghost mid = *self;
        let peek_state = PeekState { cur_pos: self.cur_pos() };
        self.set_pos(start_pos);
        let ghost v = output;
        let r = Ok(Ok((output, peek_state)));
        proof {
            assert(T::parses(*old(self), Ok(v), mid));
            assert(same_state(*old(self), *self));
            assert(r == Ok::<Result<(T, PeekState), ParserError<T::Error>>, ParserError<T::Error>>(Ok((v, peek_state))));
            assert(T::parses(*old(self), Ok(r->Ok_0->Ok_0.0), mid));
            assert(peeks::<T>(*old(self), r, *self));
        }
        r
    }

    /// Parses values of `T` for as long as they parse and make progress.
    pub fn parse_vec<T: Parse>(&mut self) -> (r: Result<Vec<T>, ParserError<T::Error>>)
        requires
            old(self).wf(),
        ensures
            final(self).wf(),
            final(self).spec_input() == old(self).spec_input(),
            final(self).tag_stack() == old(self).tag_stack(),
            old(self).pos() <= final(self).pos(),
            r matches Err(e) ==> e.spec_is_fatal(),
            parses_vec(*old(self), r, *final(self)),
    {
        let mut values: Vec<T> = Vec::new();
        let ghost mut states: Seq<Parser<'a>> = seq![*self];
        loop
            invariant_except_break
                states.last() == *self,
            invariant
                self.wf(),
                self.spec_input() == old(self).spec_input(),
                self.tag_stack() == old(self).tag_stack(),
                old(self).pos() <= self.pos(),
                parses_each(states, values@),
                states[0] == *old(self),
                values@.len() <= self.pos() - old(self).pos(),
            ensures
                self.wf(),
                self.spec_input() == old(self).spec_input(),
                self.tag_stack() == old(self).tag_stack(),
                old(self).pos() <= self.pos(),
                parses_each(states, values@),
                states[0] == *old(self),
                stops::<T>(states.last(), *self),
                values@.len() <= self.pos() - old(self).pos(),
            decreases self.spec_input().len() - self.pos(),
        {
            let start_pos = self.cur_pos();
            let ghost last = *self;
            match self.try_parse::<T>() {
                Ok(Ok(value)) => {
                    if self.cur_pos() != start_pos {
                        let ghost v = value;
                        values.push(value);
                        proof {
                            let next = states.push(*self);
                            assert(T::parses(last, Ok(v), *self));
                            assert forall|i: int| 0 <= i < values@.len() implies #[trigger] T::parses(next[i], Ok(values@[i]), next[i + 1])
                                && next[i].pos() < next[i + 1].pos() by {
                                if i < values@.len() - 1 {
                                    assert(T::parses(states[i], Ok(values@.drop_last()[i]), states[i + 1]));
                                    assert(values@.drop_last()[i] == values@[i]);
                                }
                            }
                            states = next;
                        }
                    } else {
                        proof {
                            assert(T::parses(last, Ok(value), *self));
                        }
                        break;
                    }
                },
                Ok(Err(e)) => {
                    proof {
                        assert(tries::<T>(last, Ok(Err(e)), *self));
                    }
                    break;
                },
                Err(err) => {
                    proof {
                        assert(tries::<T>(last, Err(err), *self));
                        assert(parses_each(states, values@));
                    }
                    return Err(err);
                },
            }
        }
        let r = Ok(values);
        proof {
            assert(parses_each(states, (r->Ok_0)@));
            assert(parses_vec::<T>(*old(self), r, *self));
        }
        r
    }
}


impl<'a> Parser<'a> {
    /// Whether `rem` holds the bytes that remain after the current position.
    pub open spec fn is_remaining(&self, rem: &[u8]) -> bool {
        rem@ == self.spec_input().skip(self.pos() as int)
    }

    /// Updates this parser from the remaining input.
    ///
    /// The function `f` receives the remaining input and says how many of
    /// its bytes it consumed, and whether it succeeded. The parser advances
    /// past the consumed bytes either way; on success they are returned, on
    /// failure the error is.
    pub fn try_update_with<E, F>(&mut self, f: F) -> (r: Result<AstStr, E>)
        where
            F: FnOnce(&'a [u8]) -> (usize, Result<(), E>),
        requires
            old(self).wf(),
            forall|rem: &'a [u8]| old(self).is_remaining(rem) ==> call_requires(f, (rem,)),
            forall|rem: &'a [u8], out: (usize, Result<(), E>)|
                old(self).is_remaining(rem) && call_ensures(f, (rem,), out) ==> out.0 <= rem@.len(),
        ensures
            final(self).wf(),
            final(self).spec_input() == old(self).spec_input(),
            final(self).tag_stack() == old(self).tag_stack(),
            exists|rem: &'a [u8], out: (usize, Result<(), E>)| {
                &&& old(self).is_remaining(rem)
                &&& call_ensures(f, (rem,), out)
                &&& final(self).pos() == old(self).pos() + out.0
                &&& match out.1 {
                    Ok(_) => r matches Ok(t) && t.text() == old(self).spec_input().subrange(old(self).pos() as int, final(self).pos() as int)
                        && (t.input matches Some(b) && b@ == t.text()),
                    Err(e) => r == Err::<AstStr, E>(e),
                }
            },
    {
        let total = self.bytes.len();
        let rem = self.remaining();
        proof {
            assert(old(self).is_remaining(rem));
        }
        let (consumed, res) = f(rem);
        proof {
            assert(consumed <= rem@.len());
            assert(rem@.len() == total - self.cur_pos);
        }
        let end = self.cur_pos + consumed;
        match res {
            Ok(()) => Ok(self.take_str(end)),
            Err(e) => {
                self.advance_to(end);
                Err(e)
            },
        }
    }

    /// Updates this parser from the remaining input, returning the bytes
    /// passed over.
    ///
    /// The function `f` receives the remaining input and says how many of
    /// its bytes it consumed.
    pub fn update_with<F>(&mut self, f: F) -> (r: AstStr)
        where
            F: FnOnce(&'a [u8]) -> usize,
        requires
            old(self).wf(),
            forall|rem: &'a [u8]| old(self).is_remaining(rem) ==> call_requires(f, (rem,)),
            forall|rem: &'a [u8], n: usize| old(self).is_remaining(rem) && call_ensures(f, (rem,), n) ==> n <= rem@.len(),
        ensures
            final(self).wf(),
            final(self).spec_input() == old(self).spec_input(),
            final(self).tag_stack() == old(self).tag_stack(),
            exists|rem: &'a [u8], n: usize| {
                &&& old(self).is_remaining(rem)
                &&& call_ensures(f, (rem,), n)
                &&& final(self).pos() == old(self).pos() + n
            },
            r.text() == old(self).spec_input().subrange(old(self).pos() as int, final(self).pos() as int),
            r.input matches Some(b) && b@ == r.text(),
    {
        let total = self.bytes.len();
        let rem = self.remaining();
        proof {
            assert(old(self).is_remaining(rem));
        }
        let consumed = f(rem);
        proof {
            assert(consumed <= rem@.len());
            assert(rem@.len() == total - self.cur_pos);
        }
        let end = self.cur_pos + consumed;
        self.take_str(end)
    }
}

/// [`Parser::parse`] for strings.
///
/// `parse` receives the string and says how many of its bytes it consumed,
/// and whether it succeeded. The string is advanced past the consumed bytes
/// either way; on success they are returned, on failure the error is.
pub fn parse_from_str<'a, E: ParseError, F>(s: &mut &'a [u8], parse: F) -> (r: Result<&'a [u8], E>)
    where
        F: FnOnce(&'a [u8]) -> (usize, Result<(), E>),
    requires
        call_requires(parse, (*old(s),)),
        forall|out: (usize, Result<(), E>)| call_ensures(parse, (*old(s),), out) ==> out.0 <= old(s)@.len(),
    ensures
        exists|out: (usize, Result<(), E>)| {
            &&& call_ensures(parse, (*old(s),), out)
            &&& final(s)@ == old(s)@.skip(out.0 as int)
            &&& match out.1 {
                Ok(_) => r matches Ok(p) && p@ == old(s)@.take(out.0 as int),
                Err(e) => r == Err::<&'a [u8], E>(e),
            }
        },
{
    let start: &'a [u8] = *s;
    let (consumed, res) = parse(start);
    let total = start.len();
    *s = vstd::slice::slice_subrange(start, consumed, total);
    match res {
        Ok(()) => Ok(vstd::slice::slice_subrange(start, 0, consumed)),
        Err(e) => Err(e),
    }
}

/// [`Parser::try_parse`] for strings: as [`parse_from_str`], with a
/// non-fatal error returned inside `Ok` and the string left as it was, and
/// a fatal one returned as `Err`.
pub fn try_parse_from_str<'a, E: ParseError, F>(s: &mut &'a [u8], parse: F) -> (r: Result<Result<&'a [u8], E>, E>)
    where
        F: FnOnce(&'a [u8]) -> (usize, Result<(), E>),
    requires
        call_requires(parse, (*old(s),)),
        forall|out: (usize, Result<(), E>)| call_ensures(parse, (*old(s),), out) ==> out.0 <= old(s)@.len(),
    ensures
        exists|out: (usize, Result<(), E>)| {
            &&& call_ensures(parse, (*old(s),), out)
            &&& match out.1 {
                Ok(_) => r matches Ok(Ok(p)) && p@ == old(s)@.take(out.0 as int)
                    && final(s)@ == old(s)@.skip(out.0 as int),
                Err(e) => if e.spec_is_fatal() {
                    r == Err::<Result<&'a [u8], E>, E>(e) && final(s)@ == old(s)@.skip(out.0 as int)
                } else {
                    r == Ok::<Result<&'a [u8], E>, E>(Err(e)) && *final(s) == *old(s)
                },
            }
        },
{
    let start: &'a [u8] = *s;
    match parse_from_str(s, parse) {
        Ok(value) => Ok(Ok(value)),
        Err(err) => if err.is_fatal() {
            Err(err)
        } else {
            *s = start;
            Ok(Err(err))
        },
    }
}

/// Types that may be parsed using a value peeked ahead of them
pub trait ParsePeeked<T>: Parse {
    /// Whether parsing from the parser `before` with the peeked value
    /// `parsed` gives `r`, leaving the parser as `after`.
    spec fn parses_with_peeked(before: Parser<'_>, parsed: T, r: Result<Self, Self::Error>, after: Parser<'_>) -> bool;

    /// Parses this type from the value `parsed`, peeked ahead of it.
    fn parse_from_with_peeked(parser: &mut Parser<'_>, parsed: T) -> (r: Result<Self, Self::Error>)
        requires
            old(parser).wf(),
        ensures
            final(parser).wf(),
            final(parser).spec_input() == old(parser).spec_input(),
            final(parser).tag_stack() == old(parser).tag_stack(),
            old(parser).pos() <= final(parser).pos(),
            Self::parses_with_peeked(*old(parser), parsed, r, *final(parser)),
    ;
}

impl<T: Parse + From<U>, U> ParsePeeked<U> for T {
    /// The peeked value is converted, and the parser stays as it is.
    open spec fn parses_with_peeked(before: Parser<'_>, parsed: U, r: Result<T, T::Error>, after: Parser<'_>) -> bool {
        &&& after == before
        &&& r matches Ok(v) && (T::obeys_from_spec() ==> v == T::from_spec(parsed))
    }

    /// Converts the peeked value, leaving the parser as it is.
    fn parse_from_with_peeked(parser: &mut Parser<'_>, parsed: U) -> (r: Result<Self, Self::Error>)
        ensures
            *final(parser) == *old(parser),
            r matches Ok(v) && (T::obeys_from_spec() ==> v == T::from_spec(parsed)),
    {
        Ok(parsed.into())
    }
}

impl<'a> Parser<'a> {
    /// Parses `T` from this parser with a peeked value
    pub fn parse_with_peeked<T: ParsePeeked<U>, U>(&mut self, parsed: U) -> (r: Result<T, ParserError<T::Error>>)
        requires
            old(self).wf(),
        ensures
            final(self).wf(),
            final(self).spec_input() == old(self).spec_input(),
            final(self).tag_stack() == old(self).tag_stack(),
            old(self).pos() <= final(self).pos(),
            r matches Err(e) ==> e.range == (AstRange { start: old(self).pos(), end: final(self).pos() }),
            match r {
                Ok(v) => T::parses_with_peeked(*old(self), parsed, Ok(v), *final(self)),
                Err(e) => T::parses_with_peeked(*old(self), parsed, Err(*e.source), *final(self)),
            },
    {
        let start_pos = self.cur_pos();
        match T::parse_from_with_peeked(self, parsed) {
            Ok(value) => Ok(value),
            Err(source) => Err(ParserError {
                source: Box::new(source),
                range: AstRange { start: start_pos, end: self.cur_pos() },
            }),
        }
    }
}

impl ParseError for () {
    open spec fn spec_is_fatal(&self) -> bool {
        false
    }

    fn is_fatal(&self) -> (r: bool) {
        false
    }

    open spec fn spec_pos(&self) -> Option<usize> {
        None
    }

    fn pos(&self) -> (r: Option<usize>) {
        None
    }
}

impl Parse for () {
    type Error = NeverError;

    /// Nothing is parsed, and the parser stays as it is.
    open spec fn parses(before: Parser<'_>, r: Result<(), NeverError>, after: Parser<'_>) -> bool {
        r is Ok && after == before
    }

    /// Parses nothing.
    fn parse_from(parser: &mut Parser<'_>) -> (r: Result<Self, Self::Error>)
        ensures
            r is Ok,
            final(parser).pos() == old(parser).pos(),
    {
        Ok(())
    }
}

impl<T> Parse for PhantomData<T> {
    type Error = NeverError;

    /// Nothing is parsed, and the parser stays as it is.
    open spec fn parses(before: Parser<'_>, r: Result<PhantomData<T>, NeverError>, after: Parser<'_>) -> bool {
        r is Ok && after == before
    }

    /// Parses nothing.
    fn parse_from(parser: &mut Parser<'_>) -> (r: Result<Self, Self::Error>)
        ensures
            r is Ok,
            final(parser).pos() == old(parser).pos(),
    {
        Ok(PhantomData)
    }
}

impl<T: Parse> Parse for Box<T> {
    type Error = ParserError<T::Error>;

    /// A `T` is parsed into the box.
    open spec fn parses(before: Parser<'_>, r: Result<Box<T>, ParserError<T::Error>>, after: Parser<'_>) -> bool {
        match r {
            Ok(v) => parses_wrapped::<T>(before, Ok(*v), after),
            Err(e) => parses_wrapped::<T>(before, Err(e), after),
        }
    }

    /// Parses a `T` into a box.
    fn parse_from(parser: &mut Parser<'_>) -> (r: Result<Self, Self::Error>)
        ensures
            r matches Err(e) ==> e.range == (AstRange { start: old(parser).pos(), end: final(parser).pos() }),
    {
        match parser.parse::<T>() {
            Ok(value) => Ok(Box::new(value)),
            Err(err) => Err(err),
        }
    }
}

impl<T: Parse> Parse for Option<T> {
    type Error = ParserError<T::Error>;

    /// A `T` is tried: a value gives `Some`, a non-fatal failure `None`.
    open spec fn parses(before: Parser<'_>, r: Result<Option<T>, ParserError<T::Error>>, after: Parser<'_>) -> bool {
        match r {
            Ok(Some(v)) => tries::<T>(before, Ok(Ok(v)), after),
            Ok(None) => exists|e: ParserError<T::Error>| #[trigger] tries::<T>(before, Ok(Err(e)), after),
            Err(e) => tries::<T>(before, Err(e), after),
        }
    }

    /// Parses a `T` if one is there: a non-fatal failure gives `None`
    /// without moving the parser.
    fn parse_from(parser: &mut Parser<'_>) -> (r: Result<Self, Self::Error>)
        ensures
            r matches Ok(None) ==> final(parser).pos() == old(parser).pos(),
            r matches Err(e) ==> e.spec_is_fatal(),
    {
        match parser.try_parse::<T>() {
            Ok(Ok(value)) => Ok(Some(value)),
            Ok(Err(_)) => Ok(None),
            Err(err) => Err(err),
        }
    }
}

impl<T: Parse> Parse for Vec<T> {
    type Error = ParserError<T::Error>;

    /// Values of `T` are parsed for as long as they parse and move the
    /// parser.
    open spec fn parses(before: Parser<'_>, r: Result<Vec<T>, ParserError<T::Error>>, after: Parser<'_>) -> bool {
        parses_vec(before, r, after)
    }

    /// Parses values of `T` for as long as they parse and make progress.
    fn parse_from(parser: &mut Parser<'_>) -> (r: Result<Self, Self::Error>)
        ensures
            r matches Err(e) ==> e.spec_is_fatal(),
    {
        parser.parse_vec::<T>()
    }
}

} // verus!
