//! Format output summaries and how they combine.
//!
//! A [`FormatOutput`] summarises a formatted piece of source: its length,
//! the length of its leading whitespace, its newlines and whether it is
//! empty or blank. Summaries of adjacent pieces are combined with
//! [`FormatOutput::join`], which forms a monoid with the default summary.
use vstd::prelude::*;

verus! {

/// Formatting output
#[derive(Clone, Copy, Debug)]
pub struct FormatOutput {
    /// Prefix whitespace length, if any
    pub prefix_ws_len: Option<usize>,
    /// Total length of this type
    pub len: usize,
    /// Number of newlines in the input
    pub newlines: usize,
    /// Whether the type was empty
    pub is_empty: bool,
    /// Whether the type was blank
    pub is_blank: bool,
}

/// The prefix whitespace of two adjacent pieces: the left one's, or the right
/// one's when the left piece has none and is zero-length.
pub open spec fn spec_join_prefix_ws(lhs: Option<usize>, rhs: Option<usize>, lhs_len: int) -> Option<usize> {
    match lhs {
        Some(p) => Some(p),
        None => if lhs_len == 0 { rhs } else { None },
    }
}

/// The summary of `lhs` directly followed by `rhs`.
pub open spec fn spec_join(lhs: FormatOutput, rhs: FormatOutput) -> FormatOutput {
    FormatOutput {
        prefix_ws_len: spec_join_prefix_ws(lhs.prefix_ws_len, rhs.prefix_ws_len, lhs.len as int),
        len: (lhs.len + rhs.len) as usize,
        newlines: (lhs.newlines + rhs.newlines) as usize,
        is_empty: lhs.is_empty && rhs.is_empty,
        is_blank: lhs.is_blank && rhs.is_blank,
    }
}

/// Whether two summaries can be joined without their counters overflowing.
pub open spec fn joinable(lhs: FormatOutput, rhs: FormatOutput) -> bool {
    &&& lhs.len + rhs.len <= usize::MAX
    &&& lhs.newlines + rhs.newlines <= usize::MAX
}

/// The summary of an empty piece of source.
pub open spec fn spec_default() -> FormatOutput {
    FormatOutput { prefix_ws_len: None, len: 0, newlines: 0, is_empty: true, is_blank: true }
}

/// The summary of a sequence of adjacent pieces, joined from the left.
pub open spec fn spec_join_all(outputs: Seq<FormatOutput>) -> FormatOutput
    decreases outputs.len(),
{
    if outputs.len() == 0 {
        spec_default()
    } else {
        spec_join(spec_join_all(outputs.drop_last()), outputs.last())
    }
}

/// Sum of all lengths of a sequence of summaries.
pub open spec fn total_len(outputs: Seq<FormatOutput>) -> int
    decreases outputs.len(),
{
    if outputs.len() == 0 { 0 } else { total_len(outputs.drop_last()) + outputs.last().len }
}

/// Sum of all newline counts of a sequence of summaries.
pub open spec fn total_newlines(outputs: Seq<FormatOutput>) -> int
    decreases outputs.len(),
{
    if outputs.len() == 0 { 0 } else { total_newlines(outputs.drop_last()) + outputs.last().newlines }
}

impl FormatOutput {
    /// Returns if this format output has any prefix whitespace
    pub fn has_prefix_ws(&self) -> (r: bool)
        ensures
            r == self.prefix_ws_len.is_some(),
    {
        self.prefix_ws_len.is_some()
    }

    /// Returns if this format output has any newlines
    pub fn has_newlines(&self) -> (r: bool)
        ensures
            r == (self.newlines != 0),
    {
        self.newlines != 0
    }

    /// Returns the length of this type, excluding the prefix whitespace, if any
    pub fn len_without_prefix_ws(&self) -> (r: usize)
        requires
            self.prefix_ws_len matches Some(p) ==> p <= self.len,
        ensures
            r == self.len - match self.prefix_ws_len {
                Some(p) => p as int,
                None => 0,
            },
    {
        match self.prefix_ws_len {
            Some(p) => self.len - p,
            None => self.len,
        }
    }

    /// Joins two format outputs.
    ///
    /// `lhs` must have been formatted directly *before* `rhs`.
    pub fn join(lhs: Self, rhs: Self) -> (r: Self)
        requires
            joinable(lhs, rhs),
        ensures
            r == spec_join(lhs, rhs),
    {
        FormatOutput {
            prefix_ws_len: match lhs.prefix_ws_len {
                Some(prefix_ws_len) => Some(prefix_ws_len),
                None => if lhs.len == 0 {
                    rhs.prefix_ws_len
                } else {
                    None
                },
            },
            len: lhs.len + rhs.len,
            newlines: lhs.newlines + rhs.newlines,
            is_empty: lhs.is_empty && rhs.is_empty,
            is_blank: lhs.is_blank && rhs.is_blank,
        }
    }

    /// Appends a format output to this one.
    pub fn append(&mut self, other: Self)
        requires
            joinable(*old(self), other),
        ensures
            *final(self) == spec_join(*old(self), other),
    {
        *self = Self::join(*self, other);
    }

    /// Appends this format output to `output`.
    pub fn append_to(self, output: &mut Self)
        requires
            joinable(*old(output), self),
        ensures
            *final(output) == spec_join(*old(output), self),
    {
        output.append(self);
    }

    /// Joins a sequence of adjacent outputs, from the left, starting at the
    /// empty summary.
    pub fn join_all(outputs: &[Self]) -> (r: Self)
        requires
            total_len(outputs@) <= usize::MAX,
            total_newlines(outputs@) <= usize::MAX,
        ensures
            r == spec_join_all(outputs@),
    {
        let mut output = FormatOutput {
            prefix_ws_len: None,
            len: 0,
            newlines: 0,
            is_empty: true,
            is_blank: true,
        };
        let mut i: usize = 0;
        while i < outputs.len()
            invariant
                i <= outputs@.len(),
                total_len(outputs@) <= usize::MAX,
                total_newlines(outputs@) <= usize::MAX,
                output == spec_join_all(outputs@.take(i as int)),
                output.len == total_len(outputs@.take(i as int)),
                output.newlines == total_newlines(outputs@.take(i as int)),
            decreases outputs@.len() - i,
        {
            proof {
                lemma_totals_prefix(outputs@, i as int + 1);
                assert(outputs@.take(i as int + 1).drop_last() =~= outputs@.take(i as int));
            }
            output = Self::join(output, outputs[i]);
            i = i + 1;
        }
        proof {
            assert(outputs@.take(i as int) =~= outputs@);
        }
        output
    }
}

impl Default for FormatOutput {
    fn default() -> (r: Self)
        ensures
            r == spec_default(),
    {
        FormatOutput { prefix_ws_len: None, len: 0, newlines: 0, is_empty: true, is_blank: true }
    }
}

/// The totals of a prefix never exceed the totals of the whole sequence.
pub proof fn lemma_totals_prefix(outputs: Seq<FormatOutput>, n: int)
    requires
        0 <= n <= outputs.len(),
    ensures
        total_len(outputs.take(n)) <= total_len(outputs),
        total_newlines(outputs.take(n)) <= total_newlines(outputs),
    decreases outputs.len(),
{
    if n < outputs.len() {
        lemma_totals_prefix(outputs.drop_last(), n);
        assert(outputs.drop_last().take(n) =~= outputs.take(n));
    } else {
        assert(outputs.take(n) =~= outputs);
    }
}

/// Joining is associative: how adjacent pieces are grouped does not change
/// the summary of the whole.
pub proof fn lemma_join_associative(a: FormatOutput, b: FormatOutput, c: FormatOutput)
    requires
        a.len + b.len + c.len <= usize::MAX,
        a.newlines + b.newlines + c.newlines <= usize::MAX,
    ensures
        spec_join(spec_join(a, b), c) == spec_join(a, spec_join(b, c)),
{
}

/// The empty summary is the identity of joining, on both sides.
pub proof fn lemma_join_default(a: FormatOutput)
    ensures
        spec_join(spec_default(), a) == a,
        spec_join(a, spec_default()) == a,
{
}

/// Joining all the summaries of two adjacent runs gives the join of the two
/// runs' summaries.
pub proof fn lemma_join_all_concat(xs: Seq<FormatOutput>, ys: Seq<FormatOutput>)
    requires
        total_len(xs + ys) <= usize::MAX,
        total_newlines(xs + ys) <= usize::MAX,
    ensures
        spec_join_all(xs + ys) == spec_join(spec_join_all(xs), spec_join_all(ys)),
    decreases ys.len(),
{
    if ys.len() == 0 {
        assert(xs + ys =~= xs);
        lemma_join_default(spec_join_all(xs));
    } else {
        let zs = xs + ys;
        assert(zs.drop_last() =~= xs + ys.drop_last());
        assert(zs.last() == ys.last());
        lemma_totals_prefix(zs, zs.len() - 1);
        assert(zs.take(zs.len() - 1) =~= zs.drop_last());
        lemma_total_concat(xs, ys.drop_last());
        lemma_total_nonneg(xs);
        lemma_total_nonneg(ys.drop_last());
        lemma_join_all_concat(xs, ys.drop_last());
        lemma_join_all_totals(xs + ys.drop_last());
        lemma_join_all_totals(xs);
        lemma_join_all_totals(ys.drop_last());
        lemma_join_associative(spec_join_all(xs), spec_join_all(ys.drop_last()), ys.last());
    }
}

/// The summary of a run carries the totals of its lengths and newlines.
pub proof fn lemma_join_all_totals(xs: Seq<FormatOutput>)
    requires
        total_len(xs) <= usize::MAX,
        total_newlines(xs) <= usize::MAX,
    ensures
        spec_join_all(xs).len == total_len(xs),
        spec_join_all(xs).newlines == total_newlines(xs),
    decreases xs.len(),
{
    if xs.len() > 0 {
        lemma_totals_prefix(xs, xs.len() - 1);
        assert(xs.take(xs.len() - 1) =~= xs.drop_last());
        lemma_join_all_totals(xs.drop_last());
    }
}

proof fn lemma_total_nonneg(xs: Seq<FormatOutput>)
    ensures
        total_len(xs) >= 0,
        total_newlines(xs) >= 0,
    decreases xs.len(),
{
    if xs.len() > 0 {
        lemma_total_nonneg(xs.drop_last());
    }
}

proof fn lemma_total_concat(xs: Seq<FormatOutput>, ys: Seq<FormatOutput>)
    ensures
        total_len(xs + ys) == total_len(xs) + total_len(ys),
        total_newlines(xs + ys) == total_newlines(xs) + total_newlines(ys),
    decreases ys.len(),
{
    if ys.len() == 0 {
        assert(xs + ys =~= xs);
    } else {
        assert((xs + ys).drop_last() =~= xs + ys.drop_last());
        lemma_total_concat(xs, ys.drop_last());
    }
}

} // verus!
