//! Format output with multi-line information.
//!
//! Besides the total length, a [`FormatOutput`] here records, through
//! [`FormatMultilineOutput`], how long the first and last lines of a piece of
//! source are when it spans more than one line.
use vstd::prelude::*;
use vstd::utf8::*;
use vstd::string::StringSliceAdditionalSpecFns;
use crate::ast_str::{AstStr, AstStrRepr, repeat, lemma_repeat_len, string_bytes};

verus! {

/// The newline byte.
pub open spec fn nl() -> u8 {
    0x0au8
}

/// Number of bytes before the first newline (all of them, if there is none).
pub open spec fn first_line_len(b: Seq<u8>) -> nat
    decreases b.len(),
{
    if b.len() == 0 {
        0
    } else if b[0] == nl() {
        0
    } else {
        1 + first_line_len(b.drop_first())
    }
}

/// Number of bytes after the last newline (all of them, if there is none).
pub open spec fn last_line_len(b: Seq<u8>) -> nat
    decreases b.len(),
{
    if b.len() == 0 {
        0
    } else if b.last() == nl() {
        0
    } else {
        1 + last_line_len(b.drop_last())
    }
}

/// Formatting multi-line output
#[derive(Clone, Copy, Debug)]
pub struct FormatMultilineOutput {
    /// Prefix whitespace length (before the first newline)
    pub prefix_ws_len: Option<usize>,
    /// Prefix length (before the first newline)
    pub prefix_len: usize,
    /// Suffix length (after the last newline)
    pub suffix_len: usize,
}

/// The multi-line summary of a byte string: `None` when it holds no newline,
/// otherwise the lengths of its first and last lines.
pub open spec fn spec_multiline_of(b: Seq<u8>) -> Option<FormatMultilineOutput> {
    if b.contains(nl()) {
        Some(
            FormatMultilineOutput {
                prefix_ws_len: None,
                prefix_len: first_line_len(b) as usize,
                suffix_len: last_line_len(b) as usize,
            },
        )
    } else {
        None
    }
}

/// Joins two prefix whitespace lengths
pub open spec fn spec_join_prefix_ws(lhs: Option<usize>, rhs: Option<usize>, lhs_len: int) -> Option<usize> {
    match lhs {
        Some(p) => Some(p),
        None => if lhs_len == 0 { rhs } else { None },
    }
}

/// The multi-line summary of two adjacent pieces of lengths `lhs_len` and
/// `rhs_len`.
pub open spec fn spec_multiline_join(
    lhs: Option<FormatMultilineOutput>,
    rhs: Option<FormatMultilineOutput>,
    lhs_len: int,
    rhs_len: int,
) -> Option<FormatMultilineOutput> {
    match (lhs, rhs) {
        (Some(l), Some(r)) => Some(
            FormatMultilineOutput {
                prefix_ws_len: spec_join_prefix_ws(l.prefix_ws_len, r.prefix_ws_len, l.prefix_len as int),
                prefix_len: l.prefix_len,
                suffix_len: r.suffix_len,
            },
        ),
        (Some(l), None) => Some(
            FormatMultilineOutput {
                prefix_ws_len: l.prefix_ws_len,
                prefix_len: l.prefix_len,
                suffix_len: (l.suffix_len + rhs_len) as usize,
            },
        ),
        (None, Some(r)) => Some(
            FormatMultilineOutput {
                prefix_ws_len: if lhs_len == 0 { r.prefix_ws_len } else { None },
                prefix_len: (r.prefix_len + lhs_len) as usize,
                suffix_len: r.suffix_len,
            },
        ),
        (None, None) => None,
    }
}

/// Whether the multi-line join of these pieces fits its counters.
pub open spec fn multiline_joinable(
    lhs: Option<FormatMultilineOutput>,
    rhs: Option<FormatMultilineOutput>,
    lhs_len: int,
    rhs_len: int,
) -> bool {
    &&& (rhs is None && lhs is Some ==> lhs->0.suffix_len + rhs_len <= usize::MAX)
    &&& (lhs is None && rhs is Some ==> rhs->0.prefix_len + lhs_len <= usize::MAX)
}

/// Joins two prefix whitespace lengths
pub fn join_prefix_ws(lhs_prefix_ws_len: Option<usize>, rhs_prefix_ws_len: Option<usize>, lhs_len: usize) -> (r: Option<usize>)
    ensures
        r == spec_join_prefix_ws(lhs_prefix_ws_len, rhs_prefix_ws_len, lhs_len as int),
{
    match lhs_prefix_ws_len {
        Some(prefix_ws_len) => Some(prefix_ws_len),
        None => if lhs_len == 0 {
            rhs_prefix_ws_len
        } else {
            None
        },
    }
}

/// The structural multi-line summary of a string representation.
pub open spec fn spec_multiline_of_repr(repr: AstStrRepr) -> Option<FormatMultilineOutput>
    decreases repr,
{
    match repr {
        AstStrRepr::Input(b) => spec_multiline_of(b@),
        AstStrRepr::String(s) => spec_multiline_of(string_bytes(s)),
        AstStrRepr::Static(s) => spec_multiline_of(s.spec_bytes()),
        AstStrRepr::Char(c) => if c == '\n' {
            Some(FormatMultilineOutput { prefix_ws_len: None, prefix_len: 0, suffix_len: 0 })
        } else {
            None
        },
        AstStrRepr::Spaces { .. } => None,
        AstStrRepr::Indentation { indent, newlines, depth } => if newlines == 0 {
            None
        } else {
            Some(
                FormatMultilineOutput {
                    prefix_ws_len: None,
                    prefix_len: 0,
                    suffix_len: (depth * string_bytes(indent).len()) as usize,
                },
            )
        },
        AstStrRepr::Join { lhs, rhs } => spec_multiline_join(
            spec_multiline_of_repr(lhs.repr),
            spec_multiline_of_repr(rhs.repr),
            lhs.repr.text().len() as int,
            rhs.repr.text().len() as int,
        ),
    }
}

/// Whether no indentation string inside a representation holds a newline.
pub open spec fn indents_newline_free(repr: AstStrRepr) -> bool
    decreases repr,
{
    match repr {
        AstStrRepr::Indentation { indent, .. } => !string_bytes(indent).contains(nl()),
        AstStrRepr::Join { lhs, rhs } => indents_newline_free(lhs.repr) && indents_newline_free(rhs.repr),
        _ => true,
    }
}

impl FormatMultilineOutput {
    /// Gets the multi-line output of a string
    pub fn from_str(s: &str) -> (r: Option<Self>)
        ensures
            r == spec_multiline_of(s.spec_bytes()),
    {
        Self::from_bytes(s.as_bytes())
    }

    /// Gets the multi-line output of a byte string
    pub fn from_bytes(b: &[u8]) -> (r: Option<Self>)
        ensures
            r == spec_multiline_of(b@),
    {
        let n = b.len();
        let mut i: usize = 0;
        assert(b@.skip(0) =~= b@);
        while i < n && b[i] != 0x0a
            invariant
                n == b@.len(),
                i <= n,
                forall|k: int| 0 <= k < i ==> b@[k] != nl(),
                first_line_len(b@) == i + first_line_len(b@.skip(i as int)),
            decreases n - i,
        {
            proof {
                assert(b@.skip(i as int).drop_first() =~= b@.skip(i as int + 1));
            }
            i = i + 1;
        }
        if i == n {
            proof {
                assert(!b@.contains(nl()));
            }
            return None;
        }
        proof {
            assert(b@.contains(nl())) by {
                assert(b@[i as int] == nl());
            }
            assert(b@.skip(i as int)[0] == nl());
        }
        let mut j: usize = n;
        assert(b@.take(n as int) =~= b@);
        while j > 0 && b[j - 1] != 0x0a
            invariant
                n == b@.len(),
                j <= n,
                i < j,
                b@[i as int] == nl(),
                last_line_len(b@) == (n - j) + last_line_len(b@.take(j as int)),
            decreases j,
        {
            proof {
                assert(b@.take(j as int).drop_last() =~= b@.take(j as int - 1));
            }
            j = j - 1;
        }
        proof {
            assert(b@.take(j as int).last() == nl());
        }
        Some(FormatMultilineOutput { prefix_ws_len: None, prefix_len: i, suffix_len: n - j })
    }

    /// Joins two multiline outputs.
    pub fn join(lhs: Option<Self>, rhs: Option<Self>, lhs_len: usize, rhs_len: usize) -> (r: Option<Self>)
        requires
            multiline_joinable(lhs, rhs, lhs_len as int, rhs_len as int),
        ensures
            r == spec_multiline_join(lhs, rhs, lhs_len as int, rhs_len as int),
    {
        match (lhs, rhs) {
            (Some(lhs), Some(rhs)) => Some(
                FormatMultilineOutput {
                    prefix_ws_len: join_prefix_ws(lhs.prefix_ws_len, rhs.prefix_ws_len, lhs.prefix_len),
                    prefix_len: lhs.prefix_len,
                    suffix_len: rhs.suffix_len,
                },
            ),
            (Some(lhs), None) => Some(
                FormatMultilineOutput {
                    prefix_ws_len: lhs.prefix_ws_len,
                    prefix_len: lhs.prefix_len,
                    suffix_len: lhs.suffix_len + rhs_len,
                },
            ),
            (None, Some(rhs)) => Some(
                FormatMultilineOutput {
                    prefix_ws_len: if lhs_len == 0 {
                        rhs.prefix_ws_len
                    } else {
                        None
                    },
                    prefix_len: rhs.prefix_len + lhs_len,
                    suffix_len: rhs.suffix_len,
                },
            ),
            (None, None) => None,
        }
    }
}


/// Formatting output
#[derive(Clone, Copy, Debug)]
pub struct FormatOutput {
    /// Prefix whitespace length, if any
    pub prefix_ws_len: Option<usize>,
    /// Total length of this type
    pub len: usize,
    /// Whether the type was empty
    pub is_empty: bool,
    /// Whether the type was blank
    pub is_blank: bool,
    /// Multi-line output
    pub multiline: Option<FormatMultilineOutput>,
}

/// The summary of `lhs` directly followed by `rhs`.
pub open spec fn spec_join(lhs: FormatOutput, rhs: FormatOutput) -> FormatOutput {
    FormatOutput {
        prefix_ws_len: spec_join_prefix_ws(lhs.prefix_ws_len, rhs.prefix_ws_len, lhs.len as int),
        len: (lhs.len + rhs.len) as usize,
        is_empty: lhs.is_empty && rhs.is_empty,
        is_blank: lhs.is_blank && rhs.is_blank,
        multiline: spec_multiline_join(lhs.multiline, rhs.multiline, lhs.len as int, rhs.len as int),
    }
}

/// Whether two summaries can be joined without their counters overflowing.
pub open spec fn joinable(lhs: FormatOutput, rhs: FormatOutput) -> bool {
    &&& lhs.len + rhs.len <= usize::MAX
    &&& multiline_joinable(lhs.multiline, rhs.multiline, lhs.len as int, rhs.len as int)
}

/// The summary of an empty piece of source.
pub open spec fn spec_default() -> FormatOutput {
    FormatOutput { prefix_ws_len: None, len: 0, is_empty: true, is_blank: true, multiline: None }
}

impl FormatOutput {
    /// Returns if this format output has any prefix whitespace
    pub fn has_prefix_ws(&self) -> (r: bool)
        ensures
            r == self.prefix_ws_len.is_some(),
    {
        self.prefix_ws_len.is_some()
    }

    /// Returns the length of this type, excluding the prefix whitespace, if any
    pub fn len_without_prefix_ws(&self) -> (r: usize)
        requires
            self.prefix_ws_len matches Some(p) ==> p <= self.len,
        ensures
            r == self.len - match self.prefix_ws_len {
                Some(p) => p as int,
                None => 0,
            },
    {
        match self.prefix_ws_len {
            Some(p) => self.len - p,
            None => self.len,
        }
    }

    /// Returns the non-whitespace non-multiline whitespace length of this type
    pub fn len_non_multiline_ws(&self) -> (r: usize)
        requires
            self.multiline is None ==> (self.prefix_ws_len matches Some(p) ==> p <= self.len),
            self.multiline matches Some(m) ==> m.prefix_len + m.suffix_len <= usize::MAX,
        ensures
            r == match self.multiline {
                Some(m) => m.prefix_len + m.suffix_len,
                None => self.len - match self.prefix_ws_len {
                    Some(p) => p as int,
                    None => 0,
                },
            },
    {
        match self.multiline {
            Some(multiline) => multiline.prefix_len + multiline.suffix_len,
            None => self.len_without_prefix_ws(),
        }
    }

    /// Joins two format outputs.
    ///
    /// `rhs` must directly follow `lhs`.
    pub fn join(lhs: Self, rhs: Self) -> (r: Self)
        requires
            joinable(lhs, rhs),
        ensures
            r == spec_join(lhs, rhs),
    {
        FormatOutput {
            prefix_ws_len: join_prefix_ws(lhs.prefix_ws_len, rhs.prefix_ws_len, lhs.len),
            len: lhs.len + rhs.len,
            is_empty: lhs.is_empty && rhs.is_empty,
            is_blank: lhs.is_blank && rhs.is_blank,
            multiline: FormatMultilineOutput::join(lhs.multiline, rhs.multiline, lhs.len, rhs.len),
        }
    }

    /// Appends a format output to this one.
    pub fn append(&mut self, other: Self)
        requires
            joinable(*old(self), other),
        ensures
            *final(self) == spec_join(*old(self), other),
    {
        *self = Self::join(*self, other);
    }

    /// Appends this format output to `output`.
    pub fn append_to(self, output: &mut Self)
        requires
            joinable(*old(output), self),
        ensures
            *final(output) == spec_join(*old(output), self),
    {
        output.append(self);
    }
}

impl Default for FormatOutput {
    fn default() -> (r: Self)
        ensures
            r == spec_default(),
    {
        FormatOutput { prefix_ws_len: None, len: 0, is_empty: true, is_blank: true, multiline: None }
    }
}

impl FormatMultilineOutput {
    /// Gets the multi-line output of an ast string repr
    pub fn from_ast_str_repr(repr: &AstStrRepr) -> (r: Option<Self>)
        requires
            repr.text().len() <= usize::MAX,
        ensures
            r == spec_multiline_of_repr(*repr),
            indents_newline_free(*repr) ==> r == spec_multiline_of(repr.text()),
        decreases repr,
    {
        proof {
            lemma_multiline_of_repr_bounds(*repr);
            if indents_newline_free(*repr) {
                lemma_multiline_of_repr_text(*repr);
            }
        }
        match repr {
            AstStrRepr::Input(b) => Self::from_bytes(b.as_slice()),
            AstStrRepr::String(s) => Self::from_str(s.as_str()),
            AstStrRepr::Static(s) => Self::from_str(s),
            AstStrRepr::Char(ch) => if *ch == '\n' {
                Some(FormatMultilineOutput { prefix_ws_len: None, prefix_len: 0, suffix_len: 0 })
            } else {
                None
            },
            AstStrRepr::Spaces { .. } => None,
            AstStrRepr::Indentation { indent, newlines, depth } => if *newlines == 0 {
                None
            } else {
                proof {
                    lemma_repeat_len(string_bytes(*indent), *depth as nat);
                }
                if *depth == 0 {
                    return Some(FormatMultilineOutput { prefix_ws_len: None, prefix_len: 0, suffix_len: 0 });
                }
                proof {
                    let l = string_bytes(*indent).len();
                    let d = *depth as nat;
                    assert(l <= d * l) by (nonlinear_arith)
                        requires
                            d >= 1,
                    ;
                }
                Some(
                    FormatMultilineOutput {
                        prefix_ws_len: None,
                        prefix_len: 0,
                        suffix_len: *depth * indent.as_str().len(),
                    },
                )
            },
            AstStrRepr::Join { lhs, rhs } => {
                let lhs_out = Self::from_ast_str_repr(lhs.repr());
                let rhs_out = Self::from_ast_str_repr(rhs.repr());
                proof {
                    lemma_multiline_of_repr_bounds(lhs.repr);
                    lemma_multiline_of_repr_bounds(rhs.repr);
                }
                Self::join(lhs_out, rhs_out, lhs.len(), rhs.len())
            },
        }
    }
}

proof fn lemma_first_line_len_bound(b: Seq<u8>)
    ensures
        first_line_len(b) <= b.len(),
        first_line_len(b) == b.len() <==> !b.contains(nl()),
        first_line_len(b) < b.len() ==> b[first_line_len(b) as int] == nl(),
    decreases b.len(),
{
    if b.len() > 0 {
        lemma_first_line_len_bound(b.drop_first());
        if b[0] != nl() {
            if b.contains(nl()) {
                let k = choose|k: int| 0 <= k < b.len() && b[k] == nl();
                assert(b.drop_first()[k - 1] == nl());
            }
            if b.drop_first().contains(nl()) {
                let k = choose|k: int| 0 <= k < b.drop_first().len() && b.drop_first()[k] == nl();
                assert(b[k + 1] == nl());
            }
        } else {
            assert(b.contains(nl())) by {
                assert(b[0] == nl());
            }
        }
    }
}

proof fn lemma_last_line_len_bound(b: Seq<u8>)
    ensures
        last_line_len(b) <= b.len(),
        last_line_len(b) == b.len() <==> !b.contains(nl()),
    decreases b.len(),
{
    if b.len() > 0 {
        lemma_last_line_len_bound(b.drop_last());
        if b.last() != nl() {
            if b.contains(nl()) {
                let k = choose|k: int| 0 <= k < b.len() && b[k] == nl();
                assert(b.drop_last()[k] == nl());
            }
            if b.drop_last().contains(nl()) {
                let k = choose|k: int| 0 <= k < b.drop_last().len() && b.drop_last()[k] == nl();
                assert(b[k] == nl());
            }
        } else {
            assert(b.contains(nl())) by {
                assert(b[b.len() - 1] == nl());
            }
        }
    }
}

proof fn lemma_contains_concat(a: Seq<u8>, b: Seq<u8>)
    ensures
        (a + b).contains(nl()) <==> a.contains(nl()) || b.contains(nl()),
{
    if (a + b).contains(nl()) {
        let k = choose|k: int| 0 <= k < (a + b).len() && (a + b)[k] == nl();
        if k < a.len() {
            assert(a[k] == nl());
        } else {
            assert(b[k - a.len()] == nl());
        }
    }
    if a.contains(nl()) {
        let k = choose|k: int| 0 <= k < a.len() && a[k] == nl();
        assert((a + b)[k] == nl());
    }
    if b.contains(nl()) {
        let k = choose|k: int| 0 <= k < b.len() && b[k] == nl();
        assert((a + b)[k + a.len()] == nl());
    }
}

proof fn lemma_first_line_len_concat(a: Seq<u8>, b: Seq<u8>)
    ensures
        first_line_len(a + b) == if a.contains(nl()) {
            first_line_len(a)
        } else {
            a.len() + first_line_len(b)
        },
    decreases a.len(),
{
    if a.len() == 0 {
        assert(a + b =~= b);
    } else {
        assert((a + b).drop_first() =~= a.drop_first() + b);
        lemma_first_line_len_concat(a.drop_first(), b);
        if a[0] != nl() {
            if a.contains(nl()) {
                let k = choose|k: int| 0 <= k < a.len() && a[k] == nl();
                assert(a.drop_first()[k - 1] == nl());
            }
            if a.drop_first().contains(nl()) {
                let k = choose|k: int| 0 <= k < a.drop_first().len() && a.drop_first()[k] == nl();
                assert(a[k + 1] == nl());
            }
        } else {
            assert(a.contains(nl())) by {
                assert(a[0] == nl());
            }
        }
    }
}

proof fn lemma_last_line_len_concat(a: Seq<u8>, b: Seq<u8>)
    ensures
        last_line_len(a + b) == if b.contains(nl()) {
            last_line_len(b)
        } else {
            b.len() + last_line_len(a)
        },
    decreases b.len(),
{
    if b.len() == 0 {
        assert(a + b =~= a);
    } else {
        assert((a + b).drop_last() =~= a + b.drop_last());
        lemma_last_line_len_concat(a, b.drop_last());
        if b.last() != nl() {
            if b.contains(nl()) {
                let k = choose|k: int| 0 <= k < b.len() && b[k] == nl();
                assert(b.drop_last()[k] == nl());
            }
            if b.drop_last().contains(nl()) {
                let k = choose|k: int| 0 <= k < b.drop_last().len() && b.drop_last()[k] == nl();
                assert(b[k] == nl());
            }
        } else {
            assert(b.contains(nl())) by {
                assert(b[b.len() - 1] == nl());
            }
        }
    }
}

/// The multi-line summary of two adjacent byte strings is the join of their
/// summaries: the summary does not depend on how the text was split.
pub proof fn lemma_multiline_of_concat(a: Seq<u8>, b: Seq<u8>)
    requires
        a.len() + b.len() <= usize::MAX,
    ensures
        spec_multiline_of(a + b) == spec_multiline_join(
            spec_multiline_of(a),
            spec_multiline_of(b),
            a.len() as int,
            b.len() as int,
        ),
{
    lemma_contains_concat(a, b);
    lemma_first_line_len_concat(a, b);
    lemma_last_line_len_concat(a, b);
    lemma_first_line_len_bound(a);
    lemma_first_line_len_bound(b);
    lemma_last_line_len_bound(a);
    lemma_last_line_len_bound(b);
}

proof fn lemma_multiline_of_repr_bounds(repr: AstStrRepr)
    requires
        repr.text().len() <= usize::MAX,
    ensures
        spec_multiline_of_repr(repr) matches Some(m) ==> {
            &&& m.prefix_len <= repr.text().len()
            &&& m.suffix_len <= repr.text().len()
        },
    decreases repr,
{
    match repr {
        AstStrRepr::Input(b) => {
            lemma_first_line_len_bound(b@);
            lemma_last_line_len_bound(b@);
        },
        AstStrRepr::String(s) => {
            lemma_first_line_len_bound(string_bytes(s));
            lemma_last_line_len_bound(string_bytes(s));
        },
        AstStrRepr::Static(s) => {
            lemma_first_line_len_bound(s.spec_bytes());
            lemma_last_line_len_bound(s.spec_bytes());
        },
        AstStrRepr::Indentation { indent, newlines, depth } => {
            lemma_repeat_len(string_bytes(indent), depth as nat);
        },
        AstStrRepr::Join { lhs, rhs } => {
            lemma_multiline_of_repr_bounds(lhs.repr);
            lemma_multiline_of_repr_bounds(rhs.repr);
        },
        _ => {},
    }
}

proof fn lemma_repeat_newline_free(s: Seq<u8>, n: nat)
    requires
        !s.contains(nl()),
    ensures
        !repeat(s, n).contains(nl()),
    decreases n,
{
    if n > 0 {
        lemma_repeat_newline_free(s, (n - 1) as nat);
        lemma_contains_concat(repeat(s, (n - 1) as nat), s);
    }
}

proof fn lemma_char_newline(c: char)
    ensures
        encode_scalar(c as u32).contains(nl()) <==> c == '\n',
{
    let v = c as u32;
    char_is_scalar(c);
    if c == '\n' {
        assert(encode_scalar(c as u32)[0] == nl()) by {
            assert(v == 10);
            assert((10u32 & 0x7F) as u8 == 10u8) by (bit_vector);
        }
    } else if has_width_1_encoding(v) {
        assert(v != 10);
        assert(v <= 0x7f && v != 10 ==> (v & 0x7F) as u8 != 10u8) by (bit_vector);
        if encode_scalar(v).contains(nl()) {
            let k = choose|k: int| 0 <= k < encode_scalar(v).len() && encode_scalar(v)[k] == nl();
            assert(k == 0);
        }
    } else {
        assert(forall|x: u32| #![auto] (0x80u8 | (x & 0x3F) as u8) != 10u8) by (bit_vector);
        assert(forall|x: u32| #![auto] (0x80u8 | ((x >> 6) & 0x3F) as u8) != 10u8) by (bit_vector);
        assert(forall|x: u32| #![auto] (0x80u8 | ((x >> 12) & 0x3F) as u8) != 10u8) by (bit_vector);
        assert(forall|x: u32| #![auto] (0xC0u8 | ((x >> 6) & 0x1F) as u8) != 10u8) by (bit_vector);
        assert(forall|x: u32| #![auto] (0xE0u8 | ((x >> 12) & 0x0F) as u8) != 10u8) by (bit_vector);
        assert(forall|x: u32| #![auto] (0xF0u8 | ((x >> 18) & 0x7) as u8) != 10u8) by (bit_vector);
        if encode_scalar(v).contains(nl()) {
            let k = choose|k: int| 0 <= k < encode_scalar(v).len() && encode_scalar(v)[k] == nl();
            assert(false);
        }
    }
}

/// The structural multi-line summary of a representation agrees with the
/// summary of the text it stands for, when no indentation holds a newline.
pub proof fn lemma_multiline_of_repr_text(repr: AstStrRepr)
    requires
        repr.text().len() <= usize::MAX,
        indents_newline_free(repr),
    ensures
        spec_multiline_of_repr(repr) == spec_multiline_of(repr.text()),
    decreases repr,
{
    match repr {
        AstStrRepr::Char(c) => {
            lemma_char_newline(c);
            if c == '\n' {
                char_is_scalar(c);
                assert(encode_scalar(c as u32).len() == 1);
                assert(encode_scalar(c as u32)[0] == nl());
                assert(encode_scalar(c as u32).drop_first().len() == 0);
                assert(encode_scalar(c as u32).drop_last().len() == 0);
            }
        },
        AstStrRepr::Spaces { len } => {
            let t = repr.text();
            if t.contains(nl()) {
                let k = choose|k: int| 0 <= k < t.len() && t[k] == nl();
                assert(false);
            }
        },
        AstStrRepr::Indentation { indent, newlines, depth } => {
            let nls = Seq::new(newlines as nat, |_i: int| 0x0au8);
            let rep = repeat(string_bytes(indent), depth as nat);
            lemma_repeat_newline_free(string_bytes(indent), depth as nat);
            lemma_repeat_len(string_bytes(indent), depth as nat);
            lemma_contains_concat(nls, rep);
            lemma_last_line_len_concat(nls, rep);
            lemma_first_line_len_concat(nls, rep);
            lemma_last_line_len_bound(rep);
            if newlines == 0 {
                if nls.contains(nl()) {
                    let k = choose|k: int| 0 <= k < nls.len() && nls[k] == nl();
                    assert(false);
                }
            } else {
                assert(nls.contains(nl())) by {
                    assert(nls[0] == nl());
                }
                assert(first_line_len(nls) == 0);
            }
        },
        AstStrRepr::Join { lhs, rhs } => {
            lemma_multiline_of_repr_text(lhs.repr);
            lemma_multiline_of_repr_text(rhs.repr);
            lemma_multiline_of_concat(lhs.repr.text(), rhs.repr.text());
        },
        _ => {},
    }
}

/// The empty summary is the identity of joining, on both sides.
pub proof fn lemma_join_default(a: FormatOutput)
    ensures
        spec_join(spec_default(), a) == a,
        spec_join(a, spec_default()) == a,
{
}

/// Whether a multi-line summary carries no prefix whitespace length.
pub open spec fn no_multiline_prefix_ws(a: FormatOutput) -> bool {
    a.multiline matches Some(m) ==> m.prefix_ws_len is None
}

/// Joining is associative on summaries whose multi-line parts carry no
/// prefix whitespace length (such as those of plain text).
pub proof fn lemma_join_associative(a: FormatOutput, b: FormatOutput, c: FormatOutput)
    requires
        a.len + b.len + c.len <= usize::MAX,
        joinable(a, b),
        joinable(spec_join(a, b), c),
        joinable(b, c),
        joinable(a, spec_join(b, c)),
        no_multiline_prefix_ws(a),
        no_multiline_prefix_ws(b),
        no_multiline_prefix_ws(c),
    ensures
        spec_join(spec_join(a, b), c) == spec_join(a, spec_join(b, c)),
{
}

} // verus!
